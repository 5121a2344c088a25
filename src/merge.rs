use vstd::prelude::*;
use vstd::arithmetic::div_mod::{lemma_fundamental_div_mod, lemma_fundamental_div_mod_converse};

use crate::image::ImageBuff;
use crate::tile::{Tile, tile_holds, owners, canvas_tiles, lemma_tiles_partition_canvas};

verus! {

/// The value that cell `i` of a grid `width` cells wide takes when tile `t`'s
/// pixels (row by row) are written over `data`, after the tile's first `rows`
/// rows and the first `cols` pixels of the next one.
pub open spec fn cell_after(
    data: Seq<u32>,
    width: nat,
    t: Tile,
    pixels: Seq<u32>,
    rows: int,
    cols: int,
    i: int,
) -> u32 {
    let px = i % (width as int);
    let py = i / (width as int);
    if width > 0 && tile_holds(t, px, py) && (py - t.y < rows || (py - t.y == rows && px - t.x
        < cols)) {
        pixels[(py - t.y) * t.w + (px - t.x)]
    } else {
        data[i]
    }
}

/// `data` with part of tile `t` written over it (see `cell_after`).
pub open spec fn partly_written(
    data: Seq<u32>,
    width: nat,
    t: Tile,
    pixels: Seq<u32>,
    rows: int,
    cols: int,
) -> Seq<u32> {
    Seq::new(data.len(), |i: int| cell_after(data, width, t, pixels, rows, cols, i))
}

/// `data` (rows of `width` cells) with all of tile `t`'s pixels written over it.
pub open spec fn written(data: Seq<u32>, width: nat, t: Tile, pixels: Seq<u32>) -> Seq<u32> {
    partly_written(data, width, t, pixels, t.h as int, 0)
}

/// The pixels of tile `t`, row by row, cut out of the whole image `p`.
pub open spec fn tile_pixels(p: Seq<u32>, width: nat, t: Tile) -> Seq<u32> {
    Seq::new(
        (t.w * t.h) as nat,
        |k: int| p[(t.y + k / (t.w as int)) * width + t.x + k % (t.w as int)],
    )
}

/// `data` after each tile of `tiles`, in order, has been written over it with
/// its pixels cut out of the image `p`.
pub open spec fn merged(data: Seq<u32>, width: nat, tiles: Seq<Tile>, p: Seq<u32>) -> Seq<u32>
    decreases tiles.len(),
{
    if tiles.len() == 0 {
        data
    } else {
        let t = tiles.last();
        written(merged(data, width, tiles.drop_last(), p), width, t, tile_pixels(p, width, t))
    }
}

proof fn lemma_cell(width: int, px: int, py: int)
    requires
        width > 0,
        0 <= px < width,
    ensures
        (py * width + px) % width == px,
        (py * width + px) / width == py,
{
    lemma_fundamental_div_mod_converse(py * width + px, width, py, px);
}

proof fn lemma_split(width: int, i: int)
    requires
        width > 0,
    ensures
        i == (i / width) * width + i % width,
        0 <= i % width < width,
{
    lemma_fundamental_div_mod(i, width);
    assert(width * (i / width) == (i / width) * width) by (nonlinear_arith);
}

/// Writes a rendered tile's pixels (row by row) into the image at the tile's
/// place; every other pixel keeps its value.
pub fn write_tile(tile: Tile, pixels: &Vec<u32>, image_buff: &mut ImageBuff)
    requires
        old(image_buff).wf(),
        tile.x + tile.w <= old(image_buff).width,
        tile.y + tile.h <= old(image_buff).height,
        pixels@.len() == tile.w * tile.h,
    ensures
        final(image_buff).width == old(image_buff).width,
        final(image_buff).height == old(image_buff).height,
        final(image_buff).data@ == written(
            old(image_buff).data@,
            old(image_buff).width as nat,
            tile,
            pixels@,
        ),
{
    let w = image_buff.width;
    let ghost cw = w as int;
    let ghost d0 = image_buff.data@;
    let n: usize = image_buff.data.len();
    let pn: usize = pixels.len();
    let mut yy: usize = 0;
    while yy < tile.h
        invariant
            image_buff.width == w,
            image_buff.height == old(image_buff).height,
            cw == w,
            d0 == old(image_buff).data@,
            d0.len() == w * image_buff.height,
            d0.len() == n,
            pixels@.len() == pn,
            tile.x + tile.w <= w,
            tile.y + tile.h <= image_buff.height,
            pixels@.len() == tile.w * tile.h,
            yy <= tile.h,
            image_buff.data@ == partly_written(d0, w as nat, tile, pixels@, yy as int, 0),
        decreases tile.h - yy,
    {
        let mut xx: usize = 0;
        while xx < tile.w
            invariant
                image_buff.width == w,
                image_buff.height == old(image_buff).height,
                cw == w,
                d0 == old(image_buff).data@,
                d0.len() == w * image_buff.height,
                d0.len() == n,
                pixels@.len() == pn,
            d0.len() == n,
            pixels@.len() == pn,
                tile.x + tile.w <= w,
                tile.y + tile.h <= image_buff.height,
                pixels@.len() == tile.w * tile.h,
                yy < tile.h,
                xx <= tile.w,
                image_buff.data@ == partly_written(
                    d0,
                    w as nat,
                    tile,
                    pixels@,
                    yy as int,
                    xx as int,
                ),
            decreases tile.w - xx,
        {
            let ghost row = (yy + tile.y) as int;
            let ghost col = (xx + tile.x) as int;
            let ghost hh = image_buff.height as int;
            assert(row * cw + col < hh * cw) by (nonlinear_arith)
                requires
                    0 <= row < hh,
                    0 <= col < cw,
            ;
            assert(hh * cw == d0.len() && d0.len() == image_buff.data@.len());
            assert((yy as int) * (tile.w as int) + (xx as int) < (tile.w as int) * (
            tile.h as int)) by (nonlinear_arith)
                requires
                    yy < tile.h,
                    xx < tile.w,
            ;
            let j: usize = (yy + tile.y) * w + (xx + tile.x);
            let k: usize = yy * tile.w + xx;
            proof {
                lemma_cell(cw, col, row);
            }
            image_buff.data[j] = pixels[k];
            xx = xx + 1;
            assert forall|i: int| 0 <= i < d0.len() implies image_buff.data@[i] == cell_after(
                d0,
                w as nat,
                tile,
                pixels@,
                yy as int,
                xx as int,
                i,
            ) by {
                lemma_split(cw, i);
            }
            assert(image_buff.data@ =~= partly_written(
                d0,
                w as nat,
                tile,
                pixels@,
                yy as int,
                xx as int,
            ));
        }
        yy = yy + 1;
        assert(image_buff.data@ =~= partly_written(d0, w as nat, tile, pixels@, yy as int, 0));
    }
}

proof fn lemma_merged(data: Seq<u32>, width: nat, s: Seq<Tile>, p: Seq<u32>)
    requires
        width > 0,
        data.len() == p.len(),
    ensures
        merged(data, width, s, p).len() == data.len(),
        forall|i: int|
            0 <= i < data.len() ==> #[trigger] merged(data, width, s, p)[i] == if owners(
                s,
                i % (width as int),
                i / (width as int),
            ) > 0 {
                p[i]
            } else {
                data[i]
            },
    decreases s.len(),
{
    if s.len() > 0 {
        let t = s.last();
        lemma_merged(data, width, s.drop_last(), p);
        assert forall|i: int| 0 <= i < data.len() implies #[trigger] merged(data, width, s, p)[i]
            == if owners(s, i % (width as int), i / (width as int)) > 0 {
            p[i]
        } else {
            data[i]
        } by {
            let px = i % (width as int);
            let py = i / (width as int);
            lemma_split(width as int, i);
            if tile_holds(t, px, py) {
                let k = (py - t.y) * t.w + (px - t.x);
                lemma_fundamental_div_mod_converse(k, t.w as int, py - t.y, px - t.x);
                assert(0 <= k < t.w * t.h) by (nonlinear_arith)
                    requires
                        k == (py - t.y) * t.w + (px - t.x),
                        0 <= py - t.y < t.h,
                        0 <= px - t.x < t.w,
                ;
                assert((t.y + k / (t.w as int)) * width + t.x + k % (t.w as int) == i);
            }
        }
    }
}

/// Writing every tile of a canvas's partition, each with its pixels cut out of
/// one whole image, into a grid of the canvas's size yields exactly that
/// image, whatever the grid held before: cutting the work into tiles changes
/// no pixel.
pub proof fn lemma_tiled_render_matches(
    width: usize,
    height: usize,
    tile_w: usize,
    tile_h: usize,
    start: Seq<u32>,
    p: Seq<u32>,
)
    requires
        tile_w > 0,
        tile_h > 0,
        width + tile_w <= usize::MAX,
        height + tile_h <= usize::MAX,
        start.len() == width * height,
        p.len() == width * height,
    ensures
        merged(
            start,
            width as nat,
            canvas_tiles(width as nat, height as nat, tile_w as nat, tile_h as nat),
            p,
        ) == p,
{
    let s = canvas_tiles(width as nat, height as nat, tile_w as nat, tile_h as nat);
    if width > 0 {
        lemma_tiles_partition_canvas(width, height, tile_w, tile_h);
        lemma_merged(start, width as nat, s, p);
        assert forall|i: int| 0 <= i < p.len() implies #[trigger] merged(
            start,
            width as nat,
            s,
            p,
        )[i] == p[i] by {
            lemma_split(width as int, i);
            let py = i / (width as int);
            assert(py < height) by (nonlinear_arith)
                requires
                    i == py * width + i % (width as int),
                    0 <= i % (width as int),
                    i < width * height,
                    width > 0,
            ;
            assert(py >= 0) by (nonlinear_arith)
                requires
                    i == py * width + i % (width as int),
                    i % (width as int) < width,
                    i >= 0,
                    width > 0,
            ;
            assert(owners(s, i % (width as int), py) == 1);
        }
        assert(merged(start, width as nat, s, p) =~= p);
    } else {
        assert(start =~= p);
        lemma_empty_merge(start, width as nat, s, p);
        assert(merged(start, width as nat, s, p) =~= p);
    }
}

proof fn lemma_empty_merge(data: Seq<u32>, width: nat, s: Seq<Tile>, p: Seq<u32>)
    requires
        data.len() == 0,
    ensures
        merged(data, width, s, p).len() == 0,
    decreases s.len(),
{
    if s.len() > 0 {
        lemma_empty_merge(data, width, s.drop_last(), p);
    }
}

} // verus!
