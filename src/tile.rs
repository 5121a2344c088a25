use vstd::prelude::*;

verus! {

/// A rectangle of pixels: origin (x, y), width w and height h.
#[derive(Clone, Copy, PartialEq, Eq, Structural, Debug)]
pub struct Tile {
    pub x: usize,
    pub y: usize,
    pub w: usize,
    pub h: usize,
}

impl Tile {
    pub fn new(x: usize, y: usize, w: usize, h: usize) -> (r: Self)
        ensures
            r == (Tile { x, y, w, h }),
    {
        Tile { x, y, w, h }
    }
}

/// Pixel (px, py) lies in tile `t`.
pub open spec fn tile_holds(t: Tile, px: int, py: int) -> bool {
    t.x <= px < t.x + t.w && t.y <= py < t.y + t.h
}

/// The tile with origin (x, y) on a `cw` × `ch` canvas cut into `tw` × `th`
/// tiles: full size, but clipped at the canvas's right and bottom edges.
pub open spec fn clipped_tile(cw: nat, ch: nat, tw: nat, th: nat, x: nat, y: nat) -> Tile {
    Tile {
        x: x as usize,
        y: y as usize,
        w: (if x + tw > cw {
            cw - x
        } else {
            tw as int
        }) as usize,
        h: (if y + th > ch {
            ch - y
        } else {
            th as int
        }) as usize,
    }
}

/// The tiles of the row at height y, from column x to the right edge.
pub open spec fn row_tiles(cw: nat, ch: nat, tw: nat, th: nat, x: nat, y: nat) -> Seq<Tile>
    decreases cw + tw - x,
{
    if x >= cw || tw == 0 {
        Seq::empty()
    } else {
        seq![clipped_tile(cw, ch, tw, th, x, y)] + row_tiles(cw, ch, tw, th, x + tw, y)
    }
}

/// The tiles of the rows from height y to the bottom edge, row by row.
pub open spec fn grid_tiles(cw: nat, ch: nat, tw: nat, th: nat, y: nat) -> Seq<Tile>
    decreases ch + th - y,
{
    if y >= ch || th == 0 {
        Seq::empty()
    } else {
        row_tiles(cw, ch, tw, th, 0, y) + grid_tiles(cw, ch, tw, th, y + th)
    }
}

/// All tiles of a `cw` × `ch` canvas in row-major order.
pub open spec fn canvas_tiles(cw: nat, ch: nat, tw: nat, th: nat) -> Seq<Tile> {
    grid_tiles(cw, ch, tw, th, 0)
}

/// How many tiles of `s` hold pixel (px, py).
pub open spec fn owners(s: Seq<Tile>, px: int, py: int) -> nat
    decreases s.len(),
{
    if s.len() == 0 {
        0
    } else {
        owners(s.drop_last(), px, py) + if tile_holds(s.last(), px, py) {
            1nat
        } else {
            0nat
        }
    }
}

/// The summed areas of the tiles of `s`.
pub open spec fn total_area(s: Seq<Tile>) -> nat
    decreases s.len(),
{
    if s.len() == 0 {
        0
    } else {
        total_area(s.drop_last()) + (s.last().w * s.last().h) as nat
    }
}

/// Cuts a `width` × `height` canvas into tiles of `tile_w` × `tile_h`, row by
/// row, the last tile of each row and column clipped to the canvas.
pub fn partition_tiles(width: usize, height: usize, tile_w: usize, tile_h: usize) -> (r: Vec<Tile>)
    requires
        tile_w > 0,
        tile_h > 0,
        width + tile_w <= usize::MAX,
        height + tile_h <= usize::MAX,
    ensures
        r@ == canvas_tiles(width as nat, height as nat, tile_w as nat, tile_h as nat),
{
    let ghost cw = width as nat;
    let ghost ch = height as nat;
    let ghost tw = tile_w as nat;
    let ghost th = tile_h as nat;
    let mut r: Vec<Tile> = Vec::new();
    let mut y: usize = 0;
    while y < height
        invariant
            tile_w > 0,
            tile_h > 0,
            cw == width,
            ch == height,
            tw == tile_w,
            th == tile_h,
            width + tile_w <= usize::MAX,
            height + tile_h <= usize::MAX,
            y <= height + tile_h,
            r@ + grid_tiles(cw, ch, tw, th, y as nat) == canvas_tiles(cw, ch, tw, th),
        decreases height + tile_h - y,
    {
        let mut x: usize = 0;
        assert(grid_tiles(cw, ch, tw, th, y as nat) == row_tiles(cw, ch, tw, th, 0, y as nat)
            + grid_tiles(cw, ch, tw, th, (y + tile_h) as nat));
        assert(r@ + row_tiles(cw, ch, tw, th, 0, y as nat) + grid_tiles(
            cw,
            ch,
            tw,
            th,
            (y + tile_h) as nat,
        ) =~= r@ + grid_tiles(cw, ch, tw, th, y as nat));
        while x < width
            invariant
                tile_w > 0,
                tile_h > 0,
                cw == width,
                ch == height,
                tw == tile_w,
                th == tile_h,
                width + tile_w <= usize::MAX,
                height + tile_h <= usize::MAX,
                y < height,
                x <= width + tile_w,
                r@ + row_tiles(cw, ch, tw, th, x as nat, y as nat) + grid_tiles(
                    cw,
                    ch,
                    tw,
                    th,
                    (y + tile_h) as nat,
                ) == canvas_tiles(cw, ch, tw, th),
            decreases width + tile_w - x,
        {
            let w: usize = if x + tile_w > width {
                width - x
            } else {
                tile_w
            };
            let h: usize = if y + tile_h > height {
                height - y
            } else {
                tile_h
            };
            let t = Tile::new(x, y, w, h);
            let ghost rest = grid_tiles(cw, ch, tw, th, (y + tile_h) as nat);
            let ghost old_r = r@;
            assert(t == clipped_tile(cw, ch, tw, th, x as nat, y as nat));
            assert(row_tiles(cw, ch, tw, th, x as nat, y as nat) == seq![t] + row_tiles(
                cw,
                ch,
                tw,
                th,
                (x + tile_w) as nat,
                y as nat,
            ));
            r.push(t);
            x = x + tile_w;
            assert(r@ + row_tiles(cw, ch, tw, th, x as nat, y as nat) + rest =~= old_r + (seq![t]
                + row_tiles(cw, ch, tw, th, x as nat, y as nat)) + rest);
        }
        assert(row_tiles(cw, ch, tw, th, x as nat, y as nat) == Seq::<Tile>::empty());
        y = y + tile_h;
        assert(r@ + grid_tiles(cw, ch, tw, th, y as nat) =~= r@ + Seq::<Tile>::empty()
            + grid_tiles(cw, ch, tw, th, y as nat));
    }
    assert(grid_tiles(cw, ch, tw, th, y as nat) == Seq::<Tile>::empty());
    assert(r@ =~= r@ + grid_tiles(cw, ch, tw, th, y as nat));
    r
}

proof fn lemma_owners_append(a: Seq<Tile>, b: Seq<Tile>, px: int, py: int)
    ensures
        owners(a + b, px, py) == owners(a, px, py) + owners(b, px, py),
        total_area(a + b) == total_area(a) + total_area(b),
    decreases b.len(),
{
    if b.len() == 0 {
        assert(a + b =~= a);
    } else {
        assert((a + b).drop_last() =~= a + b.drop_last());
        assert((a + b).last() == b.last());
        lemma_owners_append(a, b.drop_last(), px, py);
    }
}

proof fn lemma_single(t: Tile, px: int, py: int)
    ensures
        owners(seq![t], px, py) == (if tile_holds(t, px, py) {
            1nat
        } else {
            0nat
        }),
        total_area(seq![t]) == t.w * t.h,
{
    assert(seq![t].drop_last() =~= Seq::<Tile>::empty());
    assert(owners(Seq::<Tile>::empty(), px, py) == 0);
    assert(total_area(Seq::<Tile>::empty()) == 0);
}

proof fn lemma_row(cw: nat, ch: nat, tw: nat, th: nat, x: nat, y: nat, px: int, py: int)
    requires
        tw > 0,
        th > 0,
        y < ch,
        cw + tw <= usize::MAX,
        ch + th <= usize::MAX,
    ensures
        owners(row_tiles(cw, ch, tw, th, x, y), px, py) == (if x <= px < cw && y <= py < y
            + clipped_tile(cw, ch, tw, th, 0, y).h {
            1nat
        } else {
            0nat
        }),
        total_area(row_tiles(cw, ch, tw, th, x, y)) == (if x < cw {
            (cw - x) * clipped_tile(cw, ch, tw, th, 0, y).h
        } else {
            0
        }),
    decreases cw + tw - x,
{
    if x < cw {
        let t = clipped_tile(cw, ch, tw, th, x, y);
        let rest = row_tiles(cw, ch, tw, th, x + tw, y);
        let h = clipped_tile(cw, ch, tw, th, 0, y).h;
        assert(row_tiles(cw, ch, tw, th, x, y) == seq![t] + rest);
        lemma_owners_append(seq![t], rest, px, py);
        lemma_single(t, px, py);
        lemma_row(cw, ch, tw, th, x + tw, y, px, py);
        assert(t.h == h);
        if x + tw < cw {
            assert(t.w == tw);
            assert((cw - x) * h == tw * h + (cw - x - tw) * h) by (nonlinear_arith);
        }
    }
}

proof fn lemma_grid(cw: nat, ch: nat, tw: nat, th: nat, y: nat, px: int, py: int)
    requires
        tw > 0,
        th > 0,
        cw + tw <= usize::MAX,
        ch + th <= usize::MAX,
    ensures
        owners(grid_tiles(cw, ch, tw, th, y), px, py) == (if 0 <= px < cw && y <= py < ch {
            1nat
        } else {
            0nat
        }),
        total_area(grid_tiles(cw, ch, tw, th, y)) == (if y < ch {
            cw * (ch - y)
        } else {
            0
        }),
    decreases ch + th - y,
{
    if y < ch {
        let row = row_tiles(cw, ch, tw, th, 0, y);
        let rest = grid_tiles(cw, ch, tw, th, y + th);
        let h = clipped_tile(cw, ch, tw, th, 0, y).h;
        assert(grid_tiles(cw, ch, tw, th, y) == row + rest);
        lemma_owners_append(row, rest, px, py);
        lemma_row(cw, ch, tw, th, 0, y, px, py);
        lemma_grid(cw, ch, tw, th, y + th, px, py);
        assert(total_area(row) == cw * h) by (nonlinear_arith)
            requires
                total_area(row) == (if 0 < cw {
                    (cw - 0) * h
                } else {
                    0
                }),
        ;
        if y + th < ch {
            assert(h == th);
            assert(cw * (ch - y) == cw * h + cw * (ch - y - th)) by (nonlinear_arith)
                requires
                    h == th,
            ;
        } else {
            assert(h == ch - y);
            assert(total_area(rest) == 0);
        }
    }
}

/// The tiles of a canvas hold every pixel of it exactly once and nothing
/// outside it, and their areas add up to the canvas's area.
pub proof fn lemma_tiles_partition_canvas(width: usize, height: usize, tile_w: usize, tile_h: usize)
    requires
        tile_w > 0,
        tile_h > 0,
        width + tile_w <= usize::MAX,
        height + tile_h <= usize::MAX,
    ensures
        forall|px: int, py: int|
            #![trigger owners(canvas_tiles(width as nat, height as nat, tile_w as nat, tile_h as nat), px, py)]
            owners(canvas_tiles(width as nat, height as nat, tile_w as nat, tile_h as nat), px, py)
                == (if 0 <= px < width && 0 <= py < height {
                1nat
            } else {
                0nat
            }),
        total_area(canvas_tiles(width as nat, height as nat, tile_w as nat, tile_h as nat))
            == width * height,
{
    assert forall|px: int, py: int|
        owners(canvas_tiles(width as nat, height as nat, tile_w as nat, tile_h as nat), px, py)
            == (if 0 <= px < width && 0 <= py < height {
            1nat
        } else {
            0nat
        }) by {
        lemma_grid(width as nat, height as nat, tile_w as nat, tile_h as nat, 0, px, py);
    }
    lemma_grid(width as nat, height as nat, tile_w as nat, tile_h as nat, 0, 0, 0);
}

proof fn lemma_row_inside(cw: nat, ch: nat, tw: nat, th: nat, x: nat, y: nat)
    requires
        y < ch,
        cw + tw <= usize::MAX,
        ch + th <= usize::MAX,
    ensures
        forall|k: int|
            0 <= k < row_tiles(cw, ch, tw, th, x, y).len() ==> #[trigger] row_tiles(cw, ch, tw, th, x, y)[k].x
                + row_tiles(cw, ch, tw, th, x, y)[k].w <= cw && row_tiles(cw, ch, tw, th, x, y)[k].y
                + row_tiles(cw, ch, tw, th, x, y)[k].h <= ch,
    decreases cw + tw - x,
{
    if x < cw && tw > 0 {
        lemma_row_inside(cw, ch, tw, th, x + tw, y);
        let rest = row_tiles(cw, ch, tw, th, x + tw, y);
        let s = row_tiles(cw, ch, tw, th, x, y);
        assert(s == seq![clipped_tile(cw, ch, tw, th, x, y)] + rest);
        assert forall|k: int| 0 <= k < s.len() implies #[trigger] s[k].x + s[k].w <= cw && s[k].y
            + s[k].h <= ch by {
            if k > 0 {
                assert(s[k] == rest[k - 1]);
            }
        }
    }
}

proof fn lemma_grid_inside(cw: nat, ch: nat, tw: nat, th: nat, y: nat)
    requires
        cw + tw <= usize::MAX,
        ch + th <= usize::MAX,
    ensures
        forall|k: int|
            0 <= k < grid_tiles(cw, ch, tw, th, y).len() ==> #[trigger] grid_tiles(cw, ch, tw, th, y)[k].x
                + grid_tiles(cw, ch, tw, th, y)[k].w <= cw && grid_tiles(cw, ch, tw, th, y)[k].y
                + grid_tiles(cw, ch, tw, th, y)[k].h <= ch,
    decreases ch + th - y,
{
    if y < ch && th > 0 {
        lemma_row_inside(cw, ch, tw, th, 0, y);
        lemma_grid_inside(cw, ch, tw, th, y + th);
        let row = row_tiles(cw, ch, tw, th, 0, y);
        let rest = grid_tiles(cw, ch, tw, th, y + th);
        let s = grid_tiles(cw, ch, tw, th, y);
        assert(s == row + rest);
        assert forall|k: int| 0 <= k < s.len() implies #[trigger] s[k].x + s[k].w <= cw && s[k].y
            + s[k].h <= ch by {
            if k < row.len() {
                assert(s[k] == row[k]);
            } else {
                assert(s[k] == rest[k - row.len()]);
            }
        }
    }
}

/// Every tile of a canvas's partition lies inside the canvas.
pub proof fn lemma_tiles_inside(width: usize, height: usize, tile_w: usize, tile_h: usize)
    requires
        width + tile_w <= usize::MAX,
        height + tile_h <= usize::MAX,
    ensures
        forall|k: int|
            0 <= k < canvas_tiles(width as nat, height as nat, tile_w as nat, tile_h as nat).len()
                ==> #[trigger] canvas_tiles(width as nat, height as nat, tile_w as nat, tile_h as nat)[k].x
                + canvas_tiles(width as nat, height as nat, tile_w as nat, tile_h as nat)[k].w <= width
                && canvas_tiles(width as nat, height as nat, tile_w as nat, tile_h as nat)[k].y
                + canvas_tiles(width as nat, height as nat, tile_w as nat, tile_h as nat)[k].h <= height,
{
    lemma_grid_inside(width as nat, height as nat, tile_w as nat, tile_h as nat, 0);
}

} // verus!
