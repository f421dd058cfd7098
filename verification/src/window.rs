use vstd::prelude::*;
use vstd::arithmetic::div_mod::{lemma_div_is_ordered, lemma_fundamental_div_mod, lemma_fundamental_div_mod_converse, lemma_mod_bound};

verus! {

/// A rectangle of DEM pixels: rows `row_start .. row_start + height`,
/// columns `col_start .. col_start + width`.
#[derive(Debug, Clone, Copy, PartialEq, Eq)]
pub struct Window {
    pub row_start: usize,
    pub col_start: usize,
    pub height: usize,
    pub width: usize,
}

impl Window {
    /// The window is non-empty, its far edges fit in `usize`, and its cell
    /// count fits in `usize` (it is the length of a row-major buffer).
    pub open spec fn wf(self) -> bool {
        &&& self.height > 0
        &&& self.width > 0
        &&& self.row_start + self.height <= usize::MAX
        &&& self.col_start + self.width <= usize::MAX
        &&& self.height * self.width <= usize::MAX
    }
}

/// Row-major position of cell `(r, c)` in a buffer `width` cells wide.
pub open spec fn cell(width: int, r: int, c: int) -> int {
    r * width + c
}

/// One decoded tile: its tile coordinates, its actual size and its samples,
/// row-major, `width` samples per row.
#[derive(Debug, Clone)]
pub struct TileData<T> {
    pub tile_x: usize,
    pub tile_y: usize,
    pub height: usize,
    pub width: usize,
    pub data: Vec<T>,
}

/// The tile's samples are all present and its far edges, placed on a grid of
/// nominal `tile_height` x `tile_width` tiles, fit in `usize`.
pub open spec fn tile_fits<T>(t: TileData<T>, tile_height: int, tile_width: int) -> bool {
    &&& t.tile_y * tile_height + t.height <= usize::MAX
    &&& t.tile_x * tile_width + t.width <= usize::MAX
    &&& t.height * t.width <= t.data@.len()
}

/// Whether tile `t` holds the global pixel `(gr, gc)`.
pub open spec fn covers<T>(t: TileData<T>, tile_height: int, tile_width: int, gr: int, gc: int) -> bool {
    &&& t.tile_y * tile_height <= gr < t.tile_y * tile_height + t.height
    &&& t.tile_x * tile_width <= gc < t.tile_x * tile_width + t.width
}

/// The sample of tile `t` at global pixel `(gr, gc)`.
pub open spec fn tile_pixel<T>(t: TileData<T>, tile_height: int, tile_width: int, gr: int, gc: int) -> T {
    t.data@[cell(t.width as int, gr - t.tile_y * tile_height, gc - t.tile_x * tile_width)]
}

/// The value a window cell at global pixel `(gr, gc)` ends with once the
/// tiles are copied in order: that of the last tile holding the pixel, or
/// `fill` where no tile holds it.
pub open spec fn covering_value<T>(
    tiles: Seq<TileData<T>>,
    tile_height: int,
    tile_width: int,
    gr: int,
    gc: int,
    fill: T,
) -> T
    decreases tiles.len(),
{
    if tiles.len() == 0 {
        fill
    } else if covers(tiles.last(), tile_height, tile_width, gr, gc) {
        tile_pixel(tiles.last(), tile_height, tile_width, gr, gc)
    } else {
        covering_value(tiles.drop_last(), tile_height, tile_width, gr, gc, fill)
    }
}

/// The value the cell `(r, c)` of window `win` ends with once the tiles are
/// copied in order (see `covering_value`).
pub open spec fn window_value<T>(
    tiles: Seq<TileData<T>>,
    tile_height: int,
    tile_width: int,
    win: Window,
    r: int,
    c: int,
    fill: T,
) -> T {
    covering_value(tiles, tile_height, tile_width, win.row_start + r, win.col_start + c, fill)
}

proof fn lemma_cell_bound(width: int, height: int, r: int, c: int)
    requires
        0 <= r < height,
        0 <= c < width,
    ensures
        0 <= cell(width, r, c) < height * width,
        cell(width, r, c) + 1 <= height * width,
{
    assert(0 <= r * width + c < height * width) by (nonlinear_arith)
        requires
            0 <= r < height,
            0 <= c < width,
    ;
}

proof fn lemma_cell_injective(width: int, r1: int, c1: int, r2: int, c2: int)
    requires
        0 <= c1 < width,
        0 <= c2 < width,
        cell(width, r1, c1) == cell(width, r2, c2),
    ensures
        r1 == r2,
        c1 == c2,
{
    assert(r1 == r2) by (nonlinear_arith)
        requires
            0 <= c1 < width,
            0 <= c2 < width,
            r1 * width + c1 == r2 * width + c2,
    {
        if r1 < r2 {
            assert(r1 * width + width <= r2 * width);
        } else if r2 < r1 {
            assert(r2 * width + width <= r1 * width);
        }
    }
}

/// Copies the part of `tile` that falls inside `win` into `out`, the
/// row-major buffer of the window; every other cell keeps its value.
fn copy_tile<T: Copy>(
    out: &mut Vec<T>,
    win: &Window,
    tile_height: usize,
    tile_width: usize,
    tile: &TileData<T>,
)
    requires
        win.wf(),
        old(out)@.len() == win.height * win.width,
        tile_fits(*tile, tile_height as int, tile_width as int),
    ensures
        final(out)@.len() == old(out)@.len(),
        forall|r: int, c: int|
            0 <= r < win.height && 0 <= c < win.width ==> #[trigger] final(out)@[cell(
                win.width as int,
                r,
                c,
            )] == if covers(
                *tile,
                tile_height as int,
                tile_width as int,
                win.row_start + r,
                win.col_start + c,
            ) {
                tile_pixel(
                    *tile,
                    tile_height as int,
                    tile_width as int,
                    win.row_start + r,
                    win.col_start + c,
                )
            } else {
                old(out)@[cell(win.width as int, r, c)]
            },
{
    let ghost th = tile_height as int;
    let ghost tw = tile_width as int;
    let ghost w = win.width as int;
    let ghost start = out@;
    let gy0 = tile.tile_y * tile_height;
    let gx0 = tile.tile_x * tile_width;
    let row_end = win.row_start + win.height;
    let col_end = win.col_start + win.width;
    let r0 = if win.row_start > gy0 { win.row_start } else { gy0 };
    let c0 = if win.col_start > gx0 { win.col_start } else { gx0 };
    let r1 = if row_end < gy0 + tile.height { row_end } else { gy0 + tile.height };
    let c1 = if col_end < gx0 + tile.width { col_end } else { gx0 + tile.width };
    let mut gr = r0;
    while gr < r1
        invariant
            win.wf(),
            tile_fits(*tile, th, tw),
            th == tile_height,
            tw == tile_width,
            w == win.width,
            gy0 == tile.tile_y * th,
            gx0 == tile.tile_x * tw,
            row_end == win.row_start + win.height,
            col_end == win.col_start + win.width,
            r0 == if win.row_start > gy0 { win.row_start } else { gy0 },
            c0 == if win.col_start > gx0 { win.col_start } else { gx0 },
            r1 == if row_end < gy0 + tile.height { row_end as int } else { gy0 + tile.height },
            c1 == if col_end < gx0 + tile.width { col_end as int } else { gx0 + tile.width },
            r0 <= gr,
            start.len() == win.height * win.width,
            out@.len() == start.len(),
            forall|r: int, c: int|
                0 <= r < win.height && 0 <= c < win.width ==> #[trigger] out@[cell(w, r, c)] == if covers(
                    *tile,
                    th,
                    tw,
                    win.row_start + r,
                    win.col_start + c,
                ) && win.row_start + r < gr {
                    tile_pixel(*tile, th, tw, win.row_start + r, win.col_start + c)
                } else {
                    start[cell(w, r, c)]
                },
        decreases r1 - gr,
    {
        let dst_row = gr - win.row_start;
        let src_row = gr - gy0;
        let mut gc = c0;
        while gc < c1
            invariant
                win.wf(),
                tile_fits(*tile, th, tw),
                th == tile_height,
                tw == tile_width,
                w == win.width,
                gy0 == tile.tile_y * th,
                gx0 == tile.tile_x * tw,
                row_end == win.row_start + win.height,
                col_end == win.col_start + win.width,
                r0 == if win.row_start > gy0 { win.row_start } else { gy0 },
                c0 == if win.col_start > gx0 { win.col_start } else { gx0 },
                r1 == if row_end < gy0 + tile.height { row_end as int } else { gy0 + tile.height },
                c1 == if col_end < gx0 + tile.width { col_end as int } else { gx0 + tile.width },
                r0 <= gr < r1,
                c0 <= gc,
                dst_row == gr - win.row_start,
                src_row == gr - gy0,
                start.len() == win.height * win.width,
                out@.len() == start.len(),
                forall|r: int, c: int|
                    0 <= r < win.height && 0 <= c < win.width ==> #[trigger] out@[cell(w, r, c)]
                        == if covers(*tile, th, tw, win.row_start + r, win.col_start + c) && (
                    win.row_start + r < gr || (win.row_start + r == gr && win.col_start + c < gc)) {
                        tile_pixel(*tile, th, tw, win.row_start + r, win.col_start + c)
                    } else {
                        start[cell(w, r, c)]
                    },
            decreases c1 - gc,
        {
            let dst_col = gc - win.col_start;
            let src_col = gc - gx0;
            proof {
                lemma_cell_bound(tile.width as int, tile.height as int, src_row as int, src_col as int);
                lemma_cell_bound(w, win.height as int, dst_row as int, dst_col as int);
            }
            let data_len = tile.data.len();
            assert(src_row * tile.width + src_col < data_len);
            let v = tile.data[src_row * tile.width + src_col];
            let k = dst_row * win.width + dst_col;
            let ghost before = out@;
            out.set(k, v);
            assert forall|r: int, c: int|
                0 <= r < win.height && 0 <= c < win.width implies #[trigger] out@[cell(w, r, c)]
                    == if covers(*tile, th, tw, win.row_start + r, win.col_start + c) && (
                win.row_start + r < gr || (win.row_start + r == gr && win.col_start + c < gc
                    + 1)) {
                    tile_pixel(*tile, th, tw, win.row_start + r, win.col_start + c)
                } else {
                    start[cell(w, r, c)]
                } by {
                if r == dst_row && c == dst_col {
                    assert(cell(w, r, c) == k);
                } else {
                    lemma_cell_bound(w, win.height as int, r, c);
                    if cell(w, r, c) == k {
                        lemma_cell_injective(w, r, c, dst_row as int, dst_col as int);
                    }
                    assert(out@[cell(w, r, c)] == before[cell(w, r, c)]);
                }
            }
            gc = gc + 1;
        }
        gr = gr + 1;
    }
}

/// Assembles the row-major samples of `win` from decoded tiles laid on a grid
/// of nominal `tile_height` x `tile_width` tiles: each window cell takes the
/// sample of the last tile that holds its pixel, or `fill` if none does.
pub fn assemble_window<T: Copy>(
    win: &Window,
    tile_height: usize,
    tile_width: usize,
    tiles: &Vec<TileData<T>>,
    fill: T,
) -> (out: Vec<T>)
    requires
        win.wf(),
        forall|i: int| 0 <= i < tiles@.len() ==> tile_fits(#[trigger] tiles@[i], tile_height as int, tile_width as int),
    ensures
        out@.len() == win.height * win.width,
        forall|r: int, c: int|
            0 <= r < win.height && 0 <= c < win.width ==> #[trigger] out@[cell(win.width as int, r, c)]
                == window_value(tiles@, tile_height as int, tile_width as int, *win, r, c, fill),
{
    let n = win.height * win.width;
    let mut out: Vec<T> = Vec::new();
    let mut i: usize = 0;
    while i < n
        invariant
            n == win.height * win.width,
            i <= n,
            out@.len() == i,
            forall|k: int| 0 <= k < i ==> out@[k] == fill,
        decreases n - i,
    {
        out.push(fill);
        i = i + 1;
    }
    let ghost w = win.width as int;
    let ghost th = tile_height as int;
    let ghost tw = tile_width as int;
    assert forall|r: int, c: int|
        0 <= r < win.height && 0 <= c < win.width implies #[trigger] out@[cell(w, r, c)]
            == covering_value(tiles@.take(0), th, tw, win.row_start + r, win.col_start + c, fill) by {
        lemma_cell_bound(w, win.height as int, r, c);
    }
    let mut j: usize = 0;
    while j < tiles.len()
        invariant
            win.wf(),
            w == win.width,
            th == tile_height,
            tw == tile_width,
            j <= tiles@.len(),
            forall|i: int| 0 <= i < tiles@.len() ==> tile_fits(#[trigger] tiles@[i], th, tw),
            out@.len() == win.height * win.width,
            forall|r: int, c: int|
                0 <= r < win.height && 0 <= c < win.width ==> #[trigger] out@[cell(w, r, c)]
                    == covering_value(tiles@.take(j as int), th, tw, win.row_start + r, win.col_start + c, fill),
        decreases tiles@.len() - j,
    {
        let ghost before = out@;
        copy_tile(&mut out, win, tile_height, tile_width, &tiles[j]);
        assert(tiles@.take(j + 1).drop_last() =~= tiles@.take(j as int));
        assert(tiles@.take(j + 1).last() == tiles@[j as int]);
        j = j + 1;
    }
    assert(tiles@.take(tiles@.len() as int) =~= tiles@);
    out
}


/// Tile coordinates `(x0 + i, ty)` for `x0 <= x0 + i < x_end`, left to right.
pub open spec fn plan_row(x0: int, x_end: int, ty: int) -> Seq<(usize, usize)> {
    Seq::new((x_end - x0) as nat, |i: int| ((x0 + i) as usize, ty as usize))
}

/// Tile coordinates of the rectangle `[x0, x_end) x [y0, y_end)`, row by row
/// from the top, each row left to right.
pub open spec fn plan_rows(x0: int, x_end: int, y0: int, y_end: int) -> Seq<(usize, usize)>
    decreases y_end - y0,
{
    if y_end <= y0 {
        Seq::empty()
    } else {
        plan_rows(x0, x_end, y0, y_end - 1) + plan_row(x0, x_end, y_end - 1)
    }
}

/// The tiles a window touches, in reading order: tile columns from
/// `col_start / tile_width` to `(col_start + width - 1) / tile_width`, tile rows
/// from `row_start / tile_height` to `(row_start + height - 1) / tile_height`.
pub open spec fn spec_tile_plan(win: Window, tile_height: int, tile_width: int) -> Seq<(usize, usize)> {
    plan_rows(
        (win.col_start as int) / tile_width,
        (win.col_start + win.width - 1) / tile_width + 1,
        (win.row_start as int) / tile_height,
        (win.row_start + win.height - 1) / tile_height + 1,
    )
}

/// The tiles that a window touches, in the order in which they are read.
pub fn tile_plan(win: &Window, tile_height: usize, tile_width: usize) -> (plan: Vec<(usize, usize)>)
    requires
        win.wf(),
        tile_height > 0,
        tile_width > 0,
    ensures
        plan@ == spec_tile_plan(*win, tile_height as int, tile_width as int),
{
    let x0 = win.col_start / tile_width;
    let x1 = (win.col_start + win.width - 1) / tile_width;
    let y0 = win.row_start / tile_height;
    let y1 = (win.row_start + win.height - 1) / tile_height;
    proof {
        lemma_div_is_ordered(win.col_start as int, (win.col_start + win.width - 1) as int, tile_width as int);
        lemma_div_is_ordered(win.row_start as int, (win.row_start + win.height - 1) as int, tile_height as int);
        lemma_div_is_ordered((win.col_start + win.width - 1) as int, usize::MAX - 1, tile_width as int);
        lemma_div_is_ordered((win.row_start + win.height - 1) as int, usize::MAX - 1, tile_height as int);
        assert((usize::MAX - 1) / (tile_width as int) <= usize::MAX - 1) by (nonlinear_arith)
            requires tile_width > 0;
        assert((usize::MAX - 1) / (tile_height as int) <= usize::MAX - 1) by (nonlinear_arith)
            requires tile_height > 0;
    }
    let mut plan: Vec<(usize, usize)> = Vec::new();
    let mut ty = y0;
    while ty <= y1
        invariant
            y0 <= ty <= y1 + 1,
            x0 <= x1 < usize::MAX,
            y1 < usize::MAX,
            plan@ == plan_rows(x0 as int, x1 + 1, y0 as int, ty as int),
        decreases y1 + 1 - ty,
    {
        let mut tx = x0;
        while tx <= x1
            invariant
                y0 <= ty <= y1,
                x0 <= tx <= x1 + 1,
                x0 <= x1 < usize::MAX,
                y1 < usize::MAX,
                plan@ == plan_rows(x0 as int, x1 + 1, y0 as int, ty as int) + plan_row(
                    x0 as int,
                    tx as int,
                    ty as int,
                ),
            decreases x1 + 1 - tx,
        {
            plan.push((tx, ty));
            assert(plan_row(x0 as int, tx + 1, ty as int) =~= plan_row(x0 as int, tx as int, ty as int).push((tx, ty)));
            tx = tx + 1;
        }
        ty = ty + 1;
    }
    plan
}

/// Element `k` of a plan: column `x0 + k % nx`, row `y0 + k / nx`.
proof fn lemma_plan_index(x0: int, x_end: int, y0: int, y_end: int, k: int)
    requires
        0 <= x0 < x_end <= usize::MAX,
        0 <= y0,
        y_end <= usize::MAX,
        0 <= k < plan_rows(x0, x_end, y0, y_end).len(),
    ensures
        plan_rows(x0, x_end, y0, y_end)[k] == ((x0 + k % (x_end - x0)) as usize, (y0 + k / (x_end - x0)) as usize),
        0 <= k % (x_end - x0) < x_end - x0,
        0 <= k / (x_end - x0) < y_end - y0,
    decreases y_end - y0,
{
    lemma_plan_len(x0, x_end, y0, y_end);
    let nx = x_end - x0;
    lemma_div_in_rows(k, nx, y_end - y0);
    let prev = plan_rows(x0, x_end, y0, y_end - 1);
    lemma_plan_len(x0, x_end, y0, y_end - 1);
    if k < prev.len() {
        lemma_plan_index(x0, x_end, y0, y_end - 1, k);
    } else {
        let i = k - prev.len();
        assert(y_end - 1 - y0 >= 0);
        if y_end - 1 <= y0 {
            assert(y_end - 1 - y0 == 0);
            assert(0 * nx == 0);
        }
        assert(0 <= i < nx);
        assert(k == (y_end - 1 - y0) * nx + i);
        lemma_fundamental_div_mod_converse(k, nx, y_end - 1 - y0, i);
    }
}

proof fn lemma_div_in_rows(k: int, nx: int, ny: int)
    requires
        nx > 0,
        0 <= k < ny * nx,
    ensures
        0 <= k % nx < nx,
        0 <= k / nx < ny,
{
    lemma_fundamental_div_mod(k, nx);
    lemma_mod_bound(k, nx);
    assert(0 <= k / nx < ny) by (nonlinear_arith)
        requires
            nx > 0,
            0 <= k < ny * nx,
            k == nx * (k / nx) + k % nx,
            0 <= k % nx < nx;
}

proof fn lemma_plan_len(x0: int, x_end: int, y0: int, y_end: int)
    requires
        x0 <= x_end,
    ensures
        plan_rows(x0, x_end, y0, y_end).len() == if y_end <= y0 { 0 } else { (y_end - y0) * (x_end - x0) },
    decreases y_end - y0,
{
    if y_end > y0 {
        lemma_plan_len(x0, x_end, y0, y_end - 1);
        assert((y_end - y0) * (x_end - x0) == (y_end - 1 - y0) * (x_end - x0) + (x_end - x0)) by (nonlinear_arith);
    }
}

/// A full-size tile holds exactly the pixels whose tile coordinates are its own.
proof fn lemma_full_tile_covers<T>(t: TileData<T>, th: int, tw: int, gr: int, gc: int)
    requires
        th > 0,
        tw > 0,
        gr >= 0,
        gc >= 0,
        t.height == th,
        t.width == tw,
    ensures
        covers(t, th, tw, gr, gc) <==> (t.tile_y == gr / th && t.tile_x == gc / tw),
        covers(t, th, tw, gr, gc) ==> tile_pixel(t, th, tw, gr, gc) == t.data@[cell(tw, gr % th, gc % tw)],
{
    lemma_fundamental_div_mod(gr, th);
    lemma_fundamental_div_mod(gc, tw);
    lemma_mod_bound(gr, th);
    lemma_mod_bound(gc, tw);
    if t.tile_y * th <= gr < t.tile_y * th + th {
        lemma_fundamental_div_mod_converse(gr, th, t.tile_y as int, gr - t.tile_y * th);
    }
    if t.tile_x * tw <= gc < t.tile_x * tw + tw {
        lemma_fundamental_div_mod_converse(gc, tw, t.tile_x as int, gc - t.tile_x * tw);
    }
    assert(th * (gr / th) == (gr / th) * th) by (nonlinear_arith);
    assert(tw * (gc / tw) == (gc / tw) * tw) by (nonlinear_arith);
}

/// If exactly one tile of the sequence holds a pixel, that tile gives its value.
proof fn lemma_unique_cover<T>(tiles: Seq<TileData<T>>, th: int, tw: int, gr: int, gc: int, fill: T, j: int)
    requires
        0 <= j < tiles.len(),
        covers(tiles[j], th, tw, gr, gc),
        forall|i: int| 0 <= i < tiles.len() && i != j ==> !covers(#[trigger] tiles[i], th, tw, gr, gc),
    ensures
        covering_value(tiles, th, tw, gr, gc, fill) == tile_pixel(tiles[j], th, tw, gr, gc),
    decreases tiles.len(),
{
    if j != tiles.len() - 1 {
        assert(!covers(tiles[tiles.len() - 1], th, tw, gr, gc));
        let d = tiles.drop_last();
        assert forall|i: int| 0 <= i < d.len() && i != j implies !covers(#[trigger] d[i], th, tw, gr, gc) by {
            assert(d[i] == tiles[i]);
        }
        lemma_unique_cover(d, th, tw, gr, gc, fill, j);
    }
}

/// The sample of the DEM at global pixel `(gr, gc)`, as held by the tile
/// whose tile coordinates are `(gc / tile_width, gr / tile_height)`.
pub open spec fn dem_pixel<T>(tiles: Seq<TileData<T>>, tile_height: int, tile_width: int, gr: int, gc: int) -> T {
    let j = choose|j: int|
        0 <= j < tiles.len() && tiles[j].tile_y == gr / tile_height && tiles[j].tile_x == gc / tile_width;
    tiles[j].data@[cell(tile_width, gr % tile_height, gc % tile_width)]
}

/// Reading a window tile by tile gives the DEM restricted to the window: when
/// the tiles are those of the plan, in its order, each of the nominal size,
/// every window cell holds the sample of the tile that contains its pixel, at
/// that pixel's offset inside the tile; no cell keeps the fill value.
pub proof fn lemma_window_is_dem_restriction<T>(
    win: Window,
    tile_height: int,
    tile_width: int,
    tiles: Seq<TileData<T>>,
    fill: T,
)
    requires
        win.wf(),
        tile_height > 0,
        tile_width > 0,
        tiles.len() == spec_tile_plan(win, tile_height, tile_width).len(),
        forall|k: int|
            0 <= k < tiles.len() ==> {
                let t = #[trigger] tiles[k];
                &&& (t.tile_x, t.tile_y) == spec_tile_plan(win, tile_height, tile_width)[k]
                &&& t.height == tile_height
                &&& t.width == tile_width
            },
    ensures
        forall|r: int, c: int|
            0 <= r < win.height && 0 <= c < win.width ==> {
                &&& exists|j: int|
                    0 <= j < tiles.len() && tiles[j].tile_y == (win.row_start + r) / tile_height
                        && tiles[j].tile_x == (win.col_start + c) / tile_width
                &&& #[trigger] window_value(tiles, tile_height, tile_width, win, r, c, fill)
                    == dem_pixel(tiles, tile_height, tile_width, win.row_start + r, win.col_start + c)
            },
{
    let th = tile_height;
    let tw = tile_width;
    let x0 = (win.col_start as int) / tw;
    let x_end = (win.col_start + win.width - 1) / tw + 1;
    let y0 = (win.row_start as int) / th;
    let y_end = (win.row_start + win.height - 1) / th + 1;
    let plan = spec_tile_plan(win, th, tw);
    lemma_div_is_ordered(win.col_start as int, (win.col_start + win.width - 1) as int, tw);
    lemma_div_is_ordered(win.row_start as int, (win.row_start + win.height - 1) as int, th);
    lemma_div_is_ordered((win.col_start + win.width - 1) as int, usize::MAX - 1, tw);
    lemma_div_is_ordered((win.row_start + win.height - 1) as int, usize::MAX - 1, th);
    assert((usize::MAX - 1) / tw <= usize::MAX - 1) by (nonlinear_arith)
        requires tw > 0;
    assert((usize::MAX - 1) / th <= usize::MAX - 1) by (nonlinear_arith)
        requires th > 0;
    let nx = x_end - x0;
    lemma_plan_len(x0, x_end, y0, y_end);
    assert forall|r: int, c: int|
        0 <= r < win.height && 0 <= c < win.width implies {
            &&& exists|j: int|
                0 <= j < tiles.len() && tiles[j].tile_y == (win.row_start + r) / th
                    && tiles[j].tile_x == (win.col_start + c) / tw
            &&& #[trigger] window_value(tiles, th, tw, win, r, c, fill)
                == dem_pixel(tiles, th, tw, win.row_start + r, win.col_start + c)
        } by {
        let gr = win.row_start + r;
        let gc = win.col_start + c;
        let ty = gr / th;
        let tx = gc / tw;
        lemma_div_is_ordered(win.row_start as int, gr, th);
        lemma_div_is_ordered(gr, (win.row_start + win.height - 1) as int, th);
        lemma_div_is_ordered(win.col_start as int, gc, tw);
        lemma_div_is_ordered(gc, (win.col_start + win.width - 1) as int, tw);
        // the tile of this pixel is in the plan, at index k
        let k = (ty - y0) * nx + (tx - x0);
        assert(0 <= k < (y_end - y0) * nx) by (nonlinear_arith)
            requires
                k == (ty - y0) * nx + (tx - x0),
                0 <= ty - y0 < y_end - y0,
                0 <= tx - x0 < nx;
        lemma_fundamental_div_mod_converse(k, nx, ty - y0, tx - x0);
        lemma_plan_index(x0, x_end, y0, y_end, k);
        assert(tiles[k].tile_y == ty && tiles[k].tile_x == tx);
        // no other tile of the plan holds it
        assert forall|i: int| 0 <= i < tiles.len() && i != k implies !covers(#[trigger] tiles[i], th, tw, gr, gc) by {
            lemma_plan_index(x0, x_end, y0, y_end, i);
            lemma_full_tile_covers(tiles[i], th, tw, gr, gc);
            if covers(tiles[i], th, tw, gr, gc) {
                lemma_fundamental_div_mod(i, nx);
                lemma_fundamental_div_mod(k, nx);
                assert(i % nx == k % nx);
                assert(i / nx == k / nx);
                assert(nx * (i / nx) + i % nx == nx * (k / nx) + k % nx);
            }
        }
        lemma_full_tile_covers(tiles[k], th, tw, gr, gc);
        lemma_unique_cover(tiles, th, tw, gr, gc, fill, k);
        let j = choose|j: int| 0 <= j < tiles.len() && tiles[j].tile_y == ty && tiles[j].tile_x == tx;
        if j != k {
            lemma_full_tile_covers(tiles[j], th, tw, gr, gc);
        }
        assert(j == k);
    }
}


/// The DEM pixel `(row, col)` of an observer, or `None` if it lies outside a
/// DEM of `height` x `width` pixels.
pub fn observer_cell(row: isize, col: isize, height: usize, width: usize) -> (res: Option<(usize, usize)>)
    requires
        height <= isize::MAX,
        width <= isize::MAX,
    ensures
        res == if 0 <= row < height && 0 <= col < width {
            Some((row as usize, col as usize))
        } else {
            None::<(usize, usize)>
        },
{
    if row < 0 || col < 0 || row >= height as isize || col >= width as isize {
        None
    } else {
        Some((row as usize, col as usize))
    }
}

/// First pixel of a study range `distance` pixels around `p`, clamped at 0.
pub open spec fn range_start(p: int, distance: int) -> int {
    if p - distance > 0 {
        p - distance
    } else {
        0
    }
}

/// End (exclusive) of a study range `distance` pixels around `p`, clamped at
/// `n` and never before its start.
pub open spec fn range_end(p: int, distance: int, n: int) -> int {
    let e = if p + distance < n {
        p + distance
    } else {
        n
    };
    if e > range_start(p, distance) {
        e
    } else {
        range_start(p, distance)
    }
}

/// The study window around the observer pixel `(row, col)`: `lat_cells` rows
/// and `lon_cells` columns on each side (from `row - lat_cells` included to
/// `row + lat_cells` excluded), clamped to the DEM. `None` when the clamped
/// window is empty in either direction.
pub fn study_window(
    row: usize,
    col: usize,
    lat_cells: isize,
    lon_cells: isize,
    height: usize,
    width: usize,
) -> (res: Option<Window>)
    requires
        row < height <= isize::MAX,
        col < width <= isize::MAX,
        isize::MIN <= row - lat_cells <= isize::MAX,
        isize::MIN <= row + lat_cells <= isize::MAX,
        isize::MIN <= col - lon_cells <= isize::MAX,
        isize::MIN <= col + lon_cells <= isize::MAX,
    ensures
        res is Some <==> (range_end(row as int, lat_cells as int, height as int) > range_start(row as int, lat_cells as int)
            && range_end(col as int, lon_cells as int, width as int) > range_start(col as int, lon_cells as int)),
        res matches Some(w) ==> {
            &&& w.row_start == range_start(row as int, lat_cells as int)
            &&& w.row_start + w.height == range_end(row as int, lat_cells as int, height as int)
            &&& w.col_start == range_start(col as int, lon_cells as int)
            &&& w.col_start + w.width == range_end(col as int, lon_cells as int, width as int)
            // the observer lies inside its study window, and the window inside the DEM
            &&& w.row_start <= row < w.row_start + w.height <= height
            &&& w.col_start <= col < w.col_start + w.width <= width
        },
{
    let r = row as isize;
    let c = col as isize;
    let row_start: isize = if r - lat_cells > 0 { r - lat_cells } else { 0 };
    let col_start: isize = if c - lon_cells > 0 { c - lon_cells } else { 0 };
    let row_lim: isize = if r + lat_cells < height as isize { r + lat_cells } else { height as isize };
    let col_lim: isize = if c + lon_cells < width as isize { c + lon_cells } else { width as isize };
    let row_end: isize = if row_lim > row_start { row_lim } else { row_start };
    let col_end: isize = if col_lim > col_start { col_lim } else { col_start };
    if row_end <= row_start || col_end <= col_start {
        return None;
    }
    Some(
        Window {
            row_start: row_start as usize,
            col_start: col_start as usize,
            height: (row_end - row_start) as usize,
            width: (col_end - col_start) as usize,
        },
    )
}

} // verus!
