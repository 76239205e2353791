//! Laying out the tiles in which a photo is enlarged fourfold.
//!
//! The photo is walked in tiles. Each tile reads a margin of context on every
//! side and keeps only its core, so the margins overlap on the way in and never
//! on the way out: every pixel of the enlarged picture is written exactly once.
use vstd::prelude::*;
use crate::text::{decimal, push_decimal, push_str, string_from_chars};

verus! {

/// The side of the region actually kept from each pass.
pub const TILE: u32 = 256;
/// Context carried on every side and cropped off afterwards.
pub const OVERLAP: u32 = 16;
/// The model's fixed enlargement factor.
pub const SCALE: u32 = 4;
/// Above this many output pixels enlarging is refused.
pub const MAX_OUTPUT_PIXELS: u64 = 64_000_000;

/// One pass: the region to read, and which part of the enlarged result to keep.
#[derive(Debug, Clone, Copy, PartialEq, Eq, Structural)]
pub struct Tile {
    pub src_x: u32,
    pub src_y: u32,
    pub src_w: u32,
    pub src_h: u32,
    /// Offset of the kept area inside this tile's enlarged output.
    pub keep_x: u32,
    pub keep_y: u32,
    pub keep_w: u32,
    pub keep_h: u32,
    /// Where the kept area lands in the finished image.
    pub dst_x: u32,
    pub dst_y: u32,
}

pub open spec fn min_int(a: int, b: int) -> int {
    if a <= b { a } else { b }
}

/// How many tiles of side `tile` it takes to cover `len` pixels.
pub open spec fn tile_count(len: int, tile: int) -> int {
    (len + tile - 1) / tile
}

/// The tile whose core starts at `(x, y)`.
pub open spec fn tile_at(width: int, height: int, tile: int, overlap: int, scale: int, x: int, y: int) -> Tile {
    let core_w = min_int(tile, width - x);
    let core_h = min_int(tile, height - y);
    let src_x = if x >= overlap { x - overlap } else { 0 };
    let src_y = if y >= overlap { y - overlap } else { 0 };
    let src_right = min_int(x + core_w + overlap, width);
    let src_bottom = min_int(y + core_h + overlap, height);
    Tile {
        src_x: src_x as u32,
        src_y: src_y as u32,
        src_w: (src_right - src_x) as u32,
        src_h: (src_bottom - src_y) as u32,
        keep_x: ((x - src_x) * scale) as u32,
        keep_y: ((y - src_y) * scale) as u32,
        keep_w: (core_w * scale) as u32,
        keep_h: (core_h * scale) as u32,
        dst_x: (x * scale) as u32,
        dst_y: (y * scale) as u32,
    }
}

/// The inputs on which the layout can be computed without overflowing `u32`.
pub open spec fn plan_fits(width: u32, height: u32, tile: u32, overlap: u32, scale: u32) -> bool {
    &&& tile > 0
    &&& width + tile <= u32::MAX
    &&& height + tile <= u32::MAX
    &&& width + overlap <= u32::MAX
    &&& height + overlap <= u32::MAX
    &&& width * scale <= u32::MAX
    &&& height * scale <= u32::MAX
}

/// The tiles, row by row from the top, each row left to right.
pub open spec fn planned(width: u32, height: u32, tile: u32, overlap: u32, scale: u32, tiles: Seq<Tile>) -> bool {
    let cols = tile_count(width as int, tile as int);
    let rows = tile_count(height as int, tile as int);
    &&& tiles.len() == rows * cols
    &&& forall|r: int, c: int|
        0 <= r < rows && 0 <= c < cols ==> #[trigger] tiles[r * cols + c] == tile_at(
            width as int,
            height as int,
            tile as int,
            overlap as int,
            scale as int,
            c * tile,
            r * tile,
        )
}

proof fn lemma_grid_step(k: int, tile: int, len: int)
    requires
        tile > 0,
        k >= 0,
        len >= 0,
    ensures
        (k * tile < len) <==> (k < tile_count(len, tile)),
        (k + 1) * tile == k * tile + tile,
{
    assert((k + 1) * tile == k * tile + tile) by (nonlinear_arith);
    let n = tile_count(len, tile);
    let x = len + tile - 1;
    vstd::arithmetic::div_mod::lemma_fundamental_div_mod(x, tile);
    vstd::arithmetic::div_mod::lemma_mod_pos_bound(x, tile);
    assert(x == tile * n + x % tile);
    assert(n * tile == tile * n) by (nonlinear_arith);
    if k < n {
        assert(k * tile <= (n - 1) * tile) by (nonlinear_arith)
            requires
                k <= n - 1,
                tile > 0,
        ;
        assert((n - 1) * tile == n * tile - tile) by (nonlinear_arith);
    } else {
        assert(k * tile >= n * tile) by (nonlinear_arith)
            requires
                k >= n,
                tile > 0,
        ;
    }
}

proof fn lemma_index_step(r: int, cols: int, c: int)
    ensures
        r * cols + c + 1 == r * cols + (c + 1),
        (r + 1) * cols == r * cols + cols,
{
    assert((r + 1) * cols == r * cols + cols) by (nonlinear_arith);
}

proof fn lemma_scaled_le(a: int, b: int, scale: int)
    requires
        0 <= a <= b,
        scale >= 0,
    ensures
        0 <= a * scale <= b * scale,
{
    assert(0 <= a * scale <= b * scale) by (nonlinear_arith)
        requires
            0 <= a <= b,
            scale >= 0,
    ;
}


/// Whether tile `t` writes output pixel `(px, py)`.
pub open spec fn writes(t: Tile, px: int, py: int) -> bool {
    &&& t.dst_x <= px < t.dst_x + t.keep_w
    &&& t.dst_y <= py < t.dst_y + t.keep_h
}

/// The fields of the tile at grid position `(c, r)`, as whole numbers: no field is
/// truncated when the layout fits.
proof fn lemma_tile_fields(width: u32, height: u32, tile: u32, overlap: u32, scale: u32, c: int, r: int)
    requires
        plan_fits(width, height, tile, overlap, scale),
        0 <= c < tile_count(width as int, tile as int),
        0 <= r < tile_count(height as int, tile as int),
    ensures
        ({
            let t = tile_at(width as int, height as int, tile as int, overlap as int, scale as int, c * tile, r * tile);
            let x = c * tile;
            let y = r * tile;
            let core_w = min_int(tile as int, width - x);
            let core_h = min_int(tile as int, height - y);
            &&& 0 <= x < width
            &&& 0 <= y < height
            &&& t.src_x == (if x >= overlap { x - overlap } else { 0 })
            &&& t.src_y == (if y >= overlap { y - overlap } else { 0 })
            &&& t.src_w == min_int(x + core_w + overlap, width as int) - t.src_x
            &&& t.src_h == min_int(y + core_h + overlap, height as int) - t.src_y
            &&& t.keep_x == (x - t.src_x) * scale
            &&& t.keep_y == (y - t.src_y) * scale
            &&& t.keep_w == core_w * scale
            &&& t.keep_h == core_h * scale
            &&& t.dst_x == x * scale
            &&& t.dst_y == y * scale
        }),
{
    lemma_grid_step(c, tile as int, width as int);
    lemma_grid_step(r, tile as int, height as int);
    assert(c * tile >= 0 && r * tile >= 0) by (nonlinear_arith)
        requires
            c >= 0,
            r >= 0,
            tile > 0,
    ;
    let x = c * tile;
    let y = r * tile;
    let core_w = min_int(tile as int, width - x);
    let core_h = min_int(tile as int, height - y);
    lemma_scaled_le(core_w, width as int, scale as int);
    lemma_scaled_le(core_h, height as int, scale as int);
    lemma_scaled_le(x, width as int, scale as int);
    lemma_scaled_le(y, height as int, scale as int);
    let sx: int = if x >= overlap { x - overlap } else { 0 };
    let sy: int = if y >= overlap { y - overlap } else { 0 };
    lemma_scaled_le(x - sx, width as int, scale as int);
    lemma_scaled_le(y - sy, height as int, scale as int);
}

/// Along one axis: output coordinate `p` falls in the core of exactly the tile
/// numbered `p / (tile * scale)`.
proof fn lemma_axis_cover(len: int, tile: int, scale: int, p: int)
    requires
        tile > 0,
        scale > 0,
        len >= 0,
        0 <= p < len * scale,
    ensures
        ({
            let k = p / (tile * scale);
            &&& 0 <= k < tile_count(len, tile)
            &&& k * tile * scale <= p < k * tile * scale + min_int(tile, len - k * tile) * scale
            &&& (k * tile) * scale == k * tile * scale
        }),
{
    let ts = tile * scale;
    assert(ts > 0) by (nonlinear_arith)
        requires
            ts == tile * scale,
            tile > 0,
            scale > 0,
    ;
    let k = p / ts;
    vstd::arithmetic::div_mod::lemma_fundamental_div_mod(p, ts);
    vstd::arithmetic::div_mod::lemma_mod_pos_bound(p, ts);
    assert(k >= 0) by (nonlinear_arith)
        requires
            p >= 0,
            ts > 0,
            p == ts * k + p % ts,
            p % ts < ts,
    ;
    assert(k * tile * scale == ts * k) by (nonlinear_arith)
        requires
            ts == tile * scale,
    ;
    assert((k * tile) * scale == k * tile * scale) by (nonlinear_arith);
    // k * tile < len, because k * tile * scale <= p < len * scale
    assert(k * tile < len) by (nonlinear_arith)
        requires
            k * tile * scale <= p,
            p < len * scale,
            scale > 0,
    ;
    lemma_grid_step(k, tile, len);
    assert(p < k * tile * scale + tile * scale) by (nonlinear_arith)
        requires
            p == ts * k + p % ts,
            p % ts < ts,
            ts == tile * scale,
            k * tile * scale == ts * k,
    ;
    if tile > len - k * tile {
        assert(k * tile * scale + (len - k * tile) * scale == len * scale) by (nonlinear_arith);
    }
}

/// Along one axis: two tiles whose cores both contain `p` are the same tile.
proof fn lemma_axis_unique(len: int, tile: int, scale: int, p: int, k1: int, k2: int)
    requires
        tile > 0,
        scale > 0,
        k1 >= 0,
        k2 >= 0,
        k1 * tile * scale <= p < k1 * tile * scale + min_int(tile, len - k1 * tile) * scale,
        k2 * tile * scale <= p < k2 * tile * scale + min_int(tile, len - k2 * tile) * scale,
    ensures
        k1 == k2,
{
    assert(min_int(tile, len - k1 * tile) * scale <= tile * scale) by (nonlinear_arith)
        requires
            min_int(tile, len - k1 * tile) <= tile,
            scale > 0,
    ;
    assert(min_int(tile, len - k2 * tile) * scale <= tile * scale) by (nonlinear_arith)
        requires
            min_int(tile, len - k2 * tile) <= tile,
            scale > 0,
    ;
    if k1 < k2 {
        assert(k1 * tile * scale + tile * scale <= k2 * tile * scale) by (nonlinear_arith)
            requires
                k1 < k2,
                tile > 0,
                scale > 0,
        ;
    } else if k2 < k1 {
        assert(k2 * tile * scale + tile * scale <= k1 * tile * scale) by (nonlinear_arith)
            requires
                k2 < k1,
                tile > 0,
                scale > 0,
        ;
    }
}

/// Every pixel of the enlarged picture is written by exactly one tile: the
/// margins overlap on the way in, never on the way out. Written twice would mean
/// seams, written zero times would mean holes.
pub proof fn lemma_tiles_partition_output(
    width: u32,
    height: u32,
    tile: u32,
    overlap: u32,
    scale: u32,
    tiles: Seq<Tile>,
    px: int,
    py: int,
)
    requires
        plan_fits(width, height, tile, overlap, scale),
        scale > 0,
        planned(width, height, tile, overlap, scale, tiles),
        0 <= px < width * scale,
        0 <= py < height * scale,
    ensures
        exists|i: int| 0 <= i < tiles.len() && #[trigger] writes(tiles[i], px, py),
        forall|i: int, j: int|
            0 <= i < tiles.len() && 0 <= j < tiles.len() && #[trigger] writes(tiles[i], px, py)
                && #[trigger] writes(tiles[j], px, py) ==> i == j,
{
    let cols = tile_count(width as int, tile as int);
    let rows = tile_count(height as int, tile as int);
    lemma_axis_cover(width as int, tile as int, scale as int, px);
    lemma_axis_cover(height as int, tile as int, scale as int, py);
    let c = px / ((tile * scale) as int);
    let r = py / ((tile * scale) as int);
    lemma_tile_fields(width, height, tile, overlap, scale, c, r);
    assert(0 <= r * cols + c < rows * cols) by (nonlinear_arith)
        requires
            0 <= r < rows,
            0 <= c < cols,
    ;
    assert(writes(tiles[r * cols + c], px, py));
    assert forall|i: int, j: int|
        0 <= i < tiles.len() && 0 <= j < tiles.len() && #[trigger] writes(tiles[i], px, py)
            && #[trigger] writes(tiles[j], px, py) implies i == j by {
        assert(cols > 0) by (nonlinear_arith)
            requires
                0 <= i < rows * cols,
                rows >= 0,
        ;
        let ri = i / cols;
        let ci = i % cols;
        let rj = j / cols;
        let cj = j % cols;
        vstd::arithmetic::div_mod::lemma_fundamental_div_mod(i, cols);
        vstd::arithmetic::div_mod::lemma_mod_pos_bound(i, cols);
        vstd::arithmetic::div_mod::lemma_fundamental_div_mod(j, cols);
        vstd::arithmetic::div_mod::lemma_mod_pos_bound(j, cols);
        assert(i == ri * cols + ci && j == rj * cols + cj) by (nonlinear_arith)
            requires
                i == cols * ri + ci,
                j == cols * rj + cj,
        ;
        assert(0 <= ri < rows && 0 <= rj < rows) by (nonlinear_arith)
            requires
                i == ri * cols + ci,
                j == rj * cols + cj,
                0 <= ci < cols,
                0 <= cj < cols,
                0 <= i < rows * cols,
                0 <= j < rows * cols,
        ;
        lemma_tile_fields(width, height, tile, overlap, scale, ci, ri);
        lemma_tile_fields(width, height, tile, overlap, scale, cj, rj);
        assert((ci * tile) * scale == ci * tile * scale) by (nonlinear_arith);
        assert((cj * tile) * scale == cj * tile * scale) by (nonlinear_arith);
        assert((ri * tile) * scale == ri * tile * scale) by (nonlinear_arith);
        assert((rj * tile) * scale == rj * tile * scale) by (nonlinear_arith);
        lemma_axis_unique(width as int, tile as int, scale as int, px, ci, cj);
        lemma_axis_unique(height as int, tile as int, scale as int, py, ri, rj);
    }
}


/// Each tile reads only pixels of the photo, and keeps the enlargement of its own
/// core: the kept area lies inside what the tile produced, and it lands in the
/// finished picture exactly where the enlarged core belongs.
pub proof fn lemma_tiles_stay_in_bounds(
    width: u32,
    height: u32,
    tile: u32,
    overlap: u32,
    scale: u32,
    tiles: Seq<Tile>,
    i: int,
)
    requires
        plan_fits(width, height, tile, overlap, scale),
        planned(width, height, tile, overlap, scale, tiles),
        0 <= i < tiles.len(),
    ensures
        0 < tiles[i].src_w,
        0 < tiles[i].src_h,
        tiles[i].src_x + tiles[i].src_w <= width,
        tiles[i].src_y + tiles[i].src_h <= height,
        tiles[i].keep_x + tiles[i].keep_w <= tiles[i].src_w * scale,
        tiles[i].keep_y + tiles[i].keep_h <= tiles[i].src_h * scale,
        tiles[i].dst_x == tiles[i].src_x * scale + tiles[i].keep_x,
        tiles[i].dst_y == tiles[i].src_y * scale + tiles[i].keep_y,
        tiles[i].dst_x + tiles[i].keep_w <= width * scale,
        tiles[i].dst_y + tiles[i].keep_h <= height * scale,
{
    let cols = tile_count(width as int, tile as int);
    let rows = tile_count(height as int, tile as int);
    assert(cols > 0) by (nonlinear_arith)
        requires
            0 <= i < rows * cols,
            rows >= 0,
    ;
    let r = i / cols;
    let c = i % cols;
    vstd::arithmetic::div_mod::lemma_fundamental_div_mod(i, cols);
    vstd::arithmetic::div_mod::lemma_mod_pos_bound(i, cols);
    assert(i == r * cols + c) by (nonlinear_arith)
        requires
            i == cols * r + c,
    ;
    assert(0 <= r < rows) by (nonlinear_arith)
        requires
            i == r * cols + c,
            0 <= c < cols,
            0 <= i < rows * cols,
    ;
    lemma_tile_fields(width, height, tile, overlap, scale, c, r);
    let t = tiles[i];
    let x = c * tile;
    let y = r * tile;
    let core_w = min_int(tile as int, width - x);
    let core_h = min_int(tile as int, height - y);
    assert((x - t.src_x) * scale + core_w * scale <= (t.src_w as int) * scale) by (nonlinear_arith)
        requires
            (x - t.src_x) + core_w <= t.src_w,
            scale >= 0,
    ;
    assert((y - t.src_y) * scale + core_h * scale <= (t.src_h as int) * scale) by (nonlinear_arith)
        requires
            (y - t.src_y) + core_h <= t.src_h,
            scale >= 0,
    ;
    assert(x * scale == t.src_x * scale + (x - t.src_x) * scale) by (nonlinear_arith);
    assert(y * scale == t.src_y * scale + (y - t.src_y) * scale) by (nonlinear_arith);
    assert(x * scale + core_w * scale <= width * scale) by (nonlinear_arith)
        requires
            x + core_w <= width,
            scale >= 0,
    ;
    assert(y * scale + core_h * scale <= height * scale) by (nonlinear_arith)
        requires
            y + core_h <= height,
            scale >= 0,
    ;
}

/// A tile with photo on every side of its core reads that core plus the full
/// margin on each side, and keeps only the middle.
pub proof fn lemma_inner_tiles_carry_context(
    width: u32,
    height: u32,
    tile: u32,
    overlap: u32,
    scale: u32,
    tiles: Seq<Tile>,
    r: int,
    c: int,
)
    requires
        plan_fits(width, height, tile, overlap, scale),
        planned(width, height, tile, overlap, scale, tiles),
        0 <= r < tile_count(height as int, tile as int),
        0 <= c < tile_count(width as int, tile as int),
        c * tile >= overlap,
        c * tile + tile + overlap <= width,
    ensures
        tiles[r * tile_count(width as int, tile as int) + c].src_w == tile + 2 * overlap,
        tiles[r * tile_count(width as int, tile as int) + c].keep_x == overlap * scale,
        tiles[r * tile_count(width as int, tile as int) + c].keep_w == tile * scale,
{
    lemma_tile_fields(width, height, tile, overlap, scale, c, r);
}


/// Why an enlargement to `out_w` × `out_h` is refused.
pub open spec fn too_large_message(width: nat, height: nat, out_w: nat, out_h: nat) -> Seq<char> {
    decimal(width) + "×"@ + decimal(height) + " would become "@ + decimal(out_w) + "×"@ + decimal(
        out_h,
    ) + ", past what enlarging can usefully produce. Crop first, or start from a smaller photo."@
}

/// The size enlarging `width` × `height` would produce, or the reason that size is
/// beyond what the result can usefully be.
pub fn output_size(width: u32, height: u32) -> (r: Result<(u32, u32), String>)
    requires
        width * SCALE <= u32::MAX,
        height * SCALE <= u32::MAX,
    ensures
        (width * SCALE) * (height * SCALE) <= MAX_OUTPUT_PIXELS ==> r == Ok::<(u32, u32), String>(
            ((width * SCALE) as u32, (height * SCALE) as u32),
        ),
        (width * SCALE) * (height * SCALE) > MAX_OUTPUT_PIXELS ==> r is Err && r->Err_0@
            == too_large_message(
            width as nat,
            height as nat,
            (width * SCALE) as nat,
            (height * SCALE) as nat,
        ),
{
    let out_w = width * SCALE;
    let out_h = height * SCALE;
    proof {
        assert((out_w as int) * (out_h as int) <= u64::MAX) by (nonlinear_arith)
            requires
                0 <= out_w <= u32::MAX,
                0 <= out_h <= u32::MAX,
        ;
    }
    if (out_w as u64) * (out_h as u64) > MAX_OUTPUT_PIXELS {
        let mut msg: Vec<char> = Vec::new();
        push_decimal(&mut msg, width as u64);
        push_str(&mut msg, "×");
        push_decimal(&mut msg, height as u64);
        push_str(&mut msg, " would become ");
        push_decimal(&mut msg, out_w as u64);
        push_str(&mut msg, "×");
        push_decimal(&mut msg, out_h as u64);
        push_str(
            &mut msg,
            ", past what enlarging can usefully produce. Crop first, or start from a smaller photo.",
        );
        return Err(string_from_chars(&msg));
    }
    Ok((out_w, out_h))
}

/// Lays out the passes needed to cover `width` × `height`.
///
/// Every output pixel is written by exactly one tile: the margins overlap on the
/// way in, never on the way out (see [`lemma_tiles_partition_output`]).
pub fn plan_tiles(width: u32, height: u32, tile: u32, overlap: u32, scale: u32) -> (tiles: Vec<Tile>)
    requires
        plan_fits(width, height, tile, overlap, scale),
    ensures
        planned(width, height, tile, overlap, scale, tiles@),
{
    let ghost cols = tile_count(width as int, tile as int);
    let ghost rows = tile_count(height as int, tile as int);
    proof {
        assert(cols >= 0 && rows >= 0) by (nonlinear_arith)
            requires
                cols == (width + tile - 1) / (tile as int),
                rows == (height + tile - 1) / (tile as int),
                tile > 0,
        ;
    }
    proof {
        lemma_grid_step(0, tile as int, height as int);
    }
    let mut tiles: Vec<Tile> = Vec::new();
    let mut y: u32 = 0;
    let ghost mut r: int = 0;
    while y < height
        invariant
            plan_fits(width, height, tile, overlap, scale),
            cols == tile_count(width as int, tile as int),
            rows == tile_count(height as int, tile as int),
            cols >= 0,
            0 <= r <= rows,
            y == r * tile,
            (y < height) <==> (r < rows),
            tiles@.len() == r * cols,
            forall|rr: int, cc: int|
                0 <= rr < r && 0 <= cc < cols ==> #[trigger] tiles@[rr * cols + cc] == tile_at(
                    width as int,
                    height as int,
                    tile as int,
                    overlap as int,
                    scale as int,
                    cc * tile,
                    rr * tile,
                ),
        decreases rows - r,
    {
        let core_h = if tile <= height - y { tile } else { height - y };
        let src_y = y.saturating_sub(overlap);
        let bottom_want = y + core_h + overlap;
        let src_bottom = if bottom_want <= height { bottom_want } else { height };

        let mut x: u32 = 0;
        let ghost mut c: int = 0;
        let ghost row_start = tiles@.len() as int;
        proof {
            lemma_grid_step(0, tile as int, width as int);
        }
        while x < width
            invariant
                plan_fits(width, height, tile, overlap, scale),
                cols == tile_count(width as int, tile as int),
                rows == tile_count(height as int, tile as int),
                cols >= 0,
                0 <= r < rows,
                y == r * tile,
                y < height,
                core_h == min_int(tile as int, height - y),
                src_y == (if y >= overlap { y - overlap } else { 0int }),
                src_bottom == min_int(y + core_h + overlap, height as int),
                0 <= c <= cols,
                x == c * tile,
                (x < width) <==> (c < cols),
                row_start == r * cols,
                tiles@.len() == r * cols + c,
                forall|rr: int, cc: int|
                    0 <= rr < r && 0 <= cc < cols ==> #[trigger] tiles@[rr * cols + cc] == tile_at(
                        width as int,
                        height as int,
                        tile as int,
                        overlap as int,
                        scale as int,
                        cc * tile,
                        rr * tile,
                    ),
                forall|cc: int|
                    0 <= cc < c ==> #[trigger] tiles@[r * cols + cc] == tile_at(
                        width as int,
                        height as int,
                        tile as int,
                        overlap as int,
                        scale as int,
                        cc * tile,
                        r * tile,
                    ),
            decreases cols - c,
        {
            let core_w = if tile <= width - x { tile } else { width - x };
            let src_x = x.saturating_sub(overlap);
            let right_want = x + core_w + overlap;
            let src_right = if right_want <= width { right_want } else { width };
            proof {
                lemma_scaled_le(core_w as int, width as int, scale as int);
                lemma_scaled_le(core_h as int, height as int, scale as int);
                lemma_scaled_le(x as int, width as int, scale as int);
                lemma_scaled_le(y as int, height as int, scale as int);
                lemma_scaled_le((x - src_x) as int, width as int, scale as int);
                lemma_scaled_le((y - src_y) as int, height as int, scale as int);
            }
            let t = Tile {
                src_x,
                src_y,
                src_w: src_right - src_x,
                src_h: src_bottom - src_y,
                keep_x: (x - src_x) * scale,
                keep_y: (y - src_y) * scale,
                keep_w: core_w * scale,
                keep_h: core_h * scale,
                dst_x: x * scale,
                dst_y: y * scale,
            };
            let ghost before = tiles@;
            tiles.push(t);
            proof {
                lemma_index_step(r, cols, c);
                assert forall|rr: int, cc: int|
                    0 <= rr < r && 0 <= cc < cols implies #[trigger] tiles@[rr * cols + cc]
                    == tile_at(
                    width as int,
                    height as int,
                    tile as int,
                    overlap as int,
                    scale as int,
                    cc * tile,
                    rr * tile,
                ) by {
                    assert(rr * cols + cc < r * cols) by (nonlinear_arith)
                        requires
                            0 <= rr < r,
                            0 <= cc < cols,
                    ;
                    assert(tiles@[rr * cols + cc] == before[rr * cols + cc]);
                }
                lemma_grid_step(c, tile as int, width as int);
                lemma_grid_step(c + 1, tile as int, width as int);
            }
            x = x + tile;
            proof {
                c = c + 1;
            }
        }
        proof {
            lemma_index_step(r, cols, cols);
            assert forall|rr: int, cc: int|
                0 <= rr < r + 1 && 0 <= cc < cols implies #[trigger] tiles@[rr * cols + cc]
                == tile_at(
                width as int,
                height as int,
                tile as int,
                overlap as int,
                scale as int,
                cc * tile,
                rr * tile,
            ) by {
                if rr == r {
                    assert(tiles@[r * cols + cc] == tile_at(
                        width as int,
                        height as int,
                        tile as int,
                        overlap as int,
                        scale as int,
                        cc * tile,
                        r * tile,
                    ));
                }
            }
            lemma_grid_step(r, tile as int, height as int);
            lemma_grid_step(r + 1, tile as int, height as int);
        }
        y = y + tile;
        proof {
            r = r + 1;
        }
    }
    tiles
}

/// What to do next while enlarging tile by tile.
#[derive(Debug, Clone, Copy, PartialEq, Eq, Structural)]
pub enum TileStep {
    /// Stop: the user asked to, and the run fails as cancelled.
    Cancelled,
    /// Enlarge the tile with this index.
    Enlarge(usize),
    /// Every tile is done.
    Finished,
}

/// How far an enlargement has got through its tiles.
pub struct TileRun {
    pub total: usize,
    pub done: usize,
}

impl TileRun {
    /// A run over `total` tiles, none done.
    pub fn new(total: usize) -> (run: TileRun)
        ensures
            run.total == total && run.done == 0,
    {
        TileRun { total, done: 0 }
    }

    /// What comes next: once every tile is done, the run is finished; before
    /// each remaining tile, a stop request ends it; otherwise the next tile.
    pub fn next(&self, stop_requested: bool) -> (step: TileStep)
        requires
            self.done <= self.total,
        ensures
            step == (if self.done == self.total {
                TileStep::Finished
            } else if stop_requested {
                TileStep::Cancelled
            } else {
                TileStep::Enlarge(self.done)
            }),
    {
        if self.done == self.total {
            TileStep::Finished
        } else if stop_requested {
            TileStep::Cancelled
        } else {
            TileStep::Enlarge(self.done)
        }
    }

    /// Records a finished tile and gives the progress to report: tiles done,
    /// out of the total.
    pub fn tile_done(&mut self) -> (progress: (usize, usize))
        requires
            old(self).done < old(self).total,
        ensures
            final(self).total == old(self).total,
            final(self).done == old(self).done + 1,
            progress == (final(self).done, final(self).total),
    {
        self.done = self.done + 1;
        (self.done, self.total)
    }
}

} // verus!
