use vstd::prelude::*;

use crate::image::ImageBuff;
use crate::merge::{lemma_tiled_render_matches, merged, tile_pixels, written};
use crate::tile::{canvas_tiles, lemma_tiles_inside, Tile};
use vstd::arithmetic::div_mod::lemma_fundamental_div_mod;

verus! {

/// The closure can be called on every pixel.
pub open spec fn callable<F: Fn(usize, usize) -> u32>(pixel: F) -> bool {
    forall|x: usize, y: usize| #[trigger] pixel.requires((x, y))
}

/// The closure gives one color for each pixel (its sampling is seeded by
/// the pixel, say).
pub open spec fn deterministic<F: Fn(usize, usize) -> u32>(pixel: F) -> bool {
    forall|x: usize, y: usize, a: u32, b: u32|
        #[trigger] pixel.ensures((x, y), a) && #[trigger] pixel.ensures((x, y), b) ==> a == b
}

/// Renders a `width` × `height` image in one pass, asking `pixel` for the
/// color of each pixel, column by column.
pub fn render<F: Fn(usize, usize) -> u32>(width: usize, height: usize, pixel: &F) -> (r: ImageBuff)
    requires
        width * height <= usize::MAX,
        callable(*pixel),
    ensures
        r.width == width,
        r.height == height,
        r.wf(),
        forall|x: int, y: int|
            0 <= x < width && 0 <= y < height ==> pixel.ensures(
                (x as usize, y as usize),
                #[trigger] r.data@[y * width + x],
            ),
{
    let mut image_buff = ImageBuff::create(width, height);
    let mut x: usize = 0;
    while x < width
        invariant
            width * height <= usize::MAX,
            callable(*pixel),
            image_buff.width == width,
            image_buff.height == height,
            image_buff.wf(),
            x <= width,
            forall|i: int, j: int|
                0 <= i < x && 0 <= j < height ==> pixel.ensures(
                    (i as usize, j as usize),
                    #[trigger] image_buff.data@[j * width + i],
                ),
        decreases width - x,
    {
        let mut y: usize = 0;
        while y < height
            invariant
                width * height <= usize::MAX,
                callable(*pixel),
                image_buff.width == width,
                image_buff.height == height,
                image_buff.wf(),
                x < width,
                y <= height,
                forall|i: int, j: int|
                    (0 <= i < x && 0 <= j < height) || (i == x && 0 <= j < y) ==> pixel.ensures(
                        (i as usize, j as usize),
                        #[trigger] image_buff.data@[j * width + i],
                    ),
            decreases height - y,
        {
            let c = pixel(x, y);
            assert((y as int) * (width as int) + (x as int) < (width as int) * (height as int))
                by (nonlinear_arith)
                requires
                    x < width,
                    y < height,
            ;
            let idx: usize = y * width + x;
            let ghost before = image_buff.data@;
            image_buff.data[idx] = c;
            assert forall|i: int, j: int|
                (0 <= i < x && 0 <= j < height) || (i == x && 0 <= j < y + 1) implies pixel.ensures(
                (i as usize, j as usize),
                #[trigger] image_buff.data@[j * width + i],
            ) by {
                if i != x || j != y {
                    assert(j * width + i != (y as int) * (width as int) + (x as int)) by (
                    nonlinear_arith)
                        requires
                            0 <= i < width,
                            0 <= x < width,
                            i != x || j != y,
                    ;
                    assert(0 <= j * width + i < width * height) by (nonlinear_arith)
                        requires
                            0 <= i < width,
                            0 <= j < height,
                    ;
                    assert(image_buff.data@[j * width + i] == before[j * width + i]);
                }
            }
            y = y + 1;
        }
        x = x + 1;
    }
    image_buff
}

/// Renders the pixels of `tile`, row by row, asking `pixel` for each color.
pub fn render_tile<F: Fn(usize, usize) -> u32>(tile: Tile, pixel: &F) -> (r: Vec<u32>)
    requires
        tile.w * tile.h <= usize::MAX,
        tile.x + tile.w <= usize::MAX,
        tile.y + tile.h <= usize::MAX,
        callable(*pixel),
    ensures
        r@.len() == tile.w * tile.h,
        forall|i: int, j: int|
            0 <= i < tile.h && 0 <= j < tile.w ==> pixel.ensures(
                ((tile.x + j) as usize, (tile.y + i) as usize),
                #[trigger] r@[i * tile.w + j],
            ),
{
    let mut result: Vec<u32> = Vec::new();
    let mut i: usize = 0;
    while i < tile.h
        invariant
            tile.w * tile.h <= usize::MAX,
            tile.x + tile.w <= usize::MAX,
            tile.y + tile.h <= usize::MAX,
            callable(*pixel),
            i <= tile.h,
            result@.len() == i * tile.w,
            forall|a: int, b: int|
                0 <= a < i && 0 <= b < tile.w ==> pixel.ensures(
                    ((tile.x + b) as usize, (tile.y + a) as usize),
                    #[trigger] result@[a * tile.w + b],
                ),
        decreases tile.h - i,
    {
        let mut j: usize = 0;
        assert((i as int) * (tile.w as int) + (tile.w as int) <= (tile.w as int) * (
        tile.h as int)) by (nonlinear_arith)
            requires
                i < tile.h,
        ;
        while j < tile.w
            invariant
                tile.w * tile.h <= usize::MAX,
                tile.x + tile.w <= usize::MAX,
                tile.y + tile.h <= usize::MAX,
                callable(*pixel),
                i < tile.h,
                j <= tile.w,
                i * tile.w + tile.w <= tile.w * tile.h,
                result@.len() == i * tile.w + j,
                forall|a: int, b: int|
                    (0 <= a < i && 0 <= b < tile.w) || (a == i && 0 <= b < j) ==> pixel.ensures(
                        ((tile.x + b) as usize, (tile.y + a) as usize),
                        #[trigger] result@[a * tile.w + b],
                    ),
            decreases tile.w - j,
        {
            let c = pixel(tile.x + j, tile.y + i);
            let ghost before = result@;
            result.push(c);
            assert forall|a: int, b: int|
                (0 <= a < i && 0 <= b < tile.w) || (a == i && 0 <= b < j + 1) implies pixel.ensures(
                ((tile.x + b) as usize, (tile.y + a) as usize),
                #[trigger] result@[a * tile.w + b],
            ) by {
                if a < i {
                    assert(a * tile.w + b < (i as int) * (tile.w as int)) by (nonlinear_arith)
                        requires
                            0 <= a < i,
                            0 <= b < tile.w,
                    ;
                    assert(result@[a * tile.w + b] == before[a * tile.w + b]);
                } else if b < j {
                    assert(result@[a * tile.w + b] == before[a * tile.w + b]);
                }
            }
            j = j + 1;
        }
        i = i + 1;
        assert(result@.len() == i * tile.w) by (nonlinear_arith)
            requires
                result@.len() == (i - 1) * tile.w + tile.w,
        ;
    }
    assert(result@.len() == tile.w * tile.h) by (nonlinear_arith)
        requires
            result@.len() == i * tile.w,
            i == tile.h,
    ;
    result
}

/// With a deterministic pixel closure, the colors that `render_tile` gives for
/// a tile of the canvas are that tile's cut of the image that `render` gives.
pub proof fn lemma_tile_render_agrees<F: Fn(usize, usize) -> u32>(
    pixel: F,
    width: usize,
    height: usize,
    p: Seq<u32>,
    tile: Tile,
    colors: Seq<u32>,
)
    requires
        deterministic(pixel),
        p.len() == width * height,
        tile.x + tile.w <= width,
        tile.y + tile.h <= height,
        forall|x: int, y: int|
            0 <= x < width && 0 <= y < height ==> pixel.ensures(
                (x as usize, y as usize),
                #[trigger] p[y * width + x],
            ),
        colors.len() == tile.w * tile.h,
        forall|i: int, j: int|
            0 <= i < tile.h && 0 <= j < tile.w ==> pixel.ensures(
                ((tile.x + j) as usize, (tile.y + i) as usize),
                #[trigger] colors[i * tile.w + j],
            ),
    ensures
        colors == tile_pixels(p, width as nat, tile),
{
    let cut = tile_pixels(p, width as nat, tile);
    assert forall|k: int| 0 <= k < colors.len() implies colors[k] == cut[k] by {
        let tw = tile.w as int;
        let i = k / tw;
        let j = k % tw;
        let th = tile.h as int;
        assert(0 <= k < tw * th);
        assert(tw > 0) by (nonlinear_arith)
            requires
                0 <= k < tw * th,
                tw >= 0,
                th >= 0,
        ;
        lemma_fundamental_div_mod(k, tw);
        assert(k == i * tw + j) by (nonlinear_arith)
            requires
                k == tw * i + j,
        ;
        assert(0 <= i < tile.h) by (nonlinear_arith)
            requires
                k == i * tw + j,
                0 <= j < tw,
                0 <= k < tw * tile.h,
        ;
        let x = tile.x + j;
        let y = tile.y + i;
        assert(pixel.ensures((x as usize, y as usize), colors[i * tile.w + j]));
        assert(pixel.ensures((x as usize, y as usize), p[y * width + x]));
    }
    assert(colors =~= cut);
}

/// `data` after each tile of `tiles`, in order, has been written over it with
/// the colors of the same position in `outputs`.
pub open spec fn merged_outputs(
    data: Seq<u32>,
    width: nat,
    tiles: Seq<Tile>,
    outputs: Seq<Seq<u32>>,
) -> Seq<u32>
    decreases tiles.len(),
{
    if tiles.len() == 0 {
        data
    } else {
        written(
            merged_outputs(data, width, tiles.drop_last(), outputs),
            width,
            tiles.last(),
            outputs[tiles.len() - 1],
        )
    }
}

/// `colors` is a possible result of `render_tile(tile, pixel)`.
pub open spec fn renders_tile<F: Fn(usize, usize) -> u32>(pixel: F, tile: Tile, colors: Seq<u32>) -> bool {
    &&& colors.len() == tile.w * tile.h
    &&& forall|i: int, j: int|
        0 <= i < tile.h && 0 <= j < tile.w ==> pixel.ensures(
            ((tile.x + j) as usize, (tile.y + i) as usize),
            #[trigger] colors[i * tile.w + j],
        )
}

/// `p` is a possible image of `render(width, height, pixel)`.
pub open spec fn renders_image<F: Fn(usize, usize) -> u32>(
    pixel: F,
    width: usize,
    height: usize,
    p: Seq<u32>,
) -> bool {
    &&& p.len() == width * height
    &&& forall|x: int, y: int|
        0 <= x < width && 0 <= y < height ==> pixel.ensures(
            (x as usize, y as usize),
            #[trigger] p[y * width + x],
        )
}

/// `colors` is a possible result of `render_tile` for a tile inside the canvas.
pub open spec fn placed_output<F: Fn(usize, usize) -> u32>(
    pixel: F,
    width: usize,
    height: usize,
    tile: Tile,
    colors: Seq<u32>,
) -> bool {
    &&& tile.x + tile.w <= width
    &&& tile.y + tile.h <= height
    &&& renders_tile(pixel, tile, colors)
}

proof fn lemma_merged_outputs<F: Fn(usize, usize) -> u32>(
    pixel: F,
    width: usize,
    height: usize,
    data: Seq<u32>,
    p: Seq<u32>,
    tiles: Seq<Tile>,
    outputs: Seq<Seq<u32>>,
)
    requires
        deterministic(pixel),
        renders_image(pixel, width, height, p),
        tiles.len() <= outputs.len(),
        forall|k: int| 0 <= k < tiles.len() ==> #[trigger] placed_output(pixel, width, height, tiles[k], outputs[k]),
    ensures
        merged_outputs(data, width as nat, tiles, outputs) == merged(data, width as nat, tiles, p),
    decreases tiles.len(),
{
    if tiles.len() > 0 {
        let k = tiles.len() - 1;
        assert(placed_output(pixel, width, height, tiles[k], outputs[k]));
        lemma_tile_render_agrees(pixel, width, height, p, tiles[k], outputs[k]);
        let front = tiles.drop_last();
        assert forall|j: int| 0 <= j < front.len() implies #[trigger] placed_output(
            pixel,
            width,
            height,
            front[j],
            outputs[j],
        ) by {
            assert(front[j] == tiles[j]);
            assert(placed_output(pixel, width, height, tiles[j], outputs[j]));
        }
        lemma_merged_outputs(pixel, width, height, data, p, front, outputs);
    }
}

/// Rendering tile by tile and merging each tile's colors, in the order of the
/// partition, gives the very image that one pass over the canvas gives,
/// wherever the pixel colors do not depend on the order in which they are
/// asked for.
pub proof fn lemma_tiled_equals_single_pass<F: Fn(usize, usize) -> u32>(
    pixel: F,
    width: usize,
    height: usize,
    tile_w: usize,
    tile_h: usize,
    start: Seq<u32>,
    p: Seq<u32>,
    outputs: Seq<Seq<u32>>,
)
    requires
        deterministic(pixel),
        tile_w > 0,
        tile_h > 0,
        width + tile_w <= usize::MAX,
        height + tile_h <= usize::MAX,
        start.len() == width * height,
        renders_image(pixel, width, height, p),
        outputs.len() == canvas_tiles(width as nat, height as nat, tile_w as nat, tile_h as nat).len(),
        forall|k: int|
            0 <= k < outputs.len() ==> renders_tile(
                pixel,
                canvas_tiles(width as nat, height as nat, tile_w as nat, tile_h as nat)[k],
                #[trigger] outputs[k],
            ),
    ensures
        merged_outputs(
            start,
            width as nat,
            canvas_tiles(width as nat, height as nat, tile_w as nat, tile_h as nat),
            outputs,
        ) == p,
{
    let tiles = canvas_tiles(width as nat, height as nat, tile_w as nat, tile_h as nat);
    lemma_tiles_inside(width, height, tile_w, tile_h);
    assert forall|k: int| 0 <= k < tiles.len() implies #[trigger] placed_output(
        pixel,
        width,
        height,
        tiles[k],
        outputs[k],
    ) by {
        assert(renders_tile(pixel, tiles[k], outputs[k]));
    }
    lemma_merged_outputs(pixel, width, height, start, p, tiles, outputs);
    lemma_tiled_render_matches(width, height, tile_w, tile_h, start, p);
}

} // verus!
