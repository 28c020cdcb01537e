//! Contact-sheet compositing: arrange several rendered views into one labeled
//! grid image, captioned with the tiny bundled font, and the difference image
//! of two renders.

use vstd::prelude::*;

use crate::server::canvas::{
    filled, lemma_filled_pixel, lemma_pix_bounds, lemma_pix_disjoint, overlay_pixels, pix, pixel_at, with_pixel, Canvas,
};
use crate::server::font::{as_int_pixels, draw_fits, draw_text, text_pixels, text_width, text_width_model};

verus! {

/// The least `c` with `c * c >= n`.
pub open spec fn is_ceil_sqrt(c: nat, n: nat) -> bool {
    c * c >= n && (c == 0 || (c - 1) * (c - 1) < n)
}

/// `(cols, rows)` of the grid for `n` cells: `cols = ⌈√n⌉`, `rows = ⌈n / cols⌉`,
/// and a single empty cell for `n == 0`.
pub open spec fn grid_dims_model(n: nat, cols: nat, rows: nat) -> bool {
    if n == 0 {
        cols == 1 && rows == 1
    } else {
        is_ceil_sqrt(cols, n) && rows == (n + cols - 1) / (cols as int)
    }
}

/// The grid has a slot for every cell, and it is never taller than wide.
pub proof fn lemma_grid_fits_cells(n: nat, cols: nat, rows: nat)
    requires
        grid_dims_model(n, cols, rows),
    ensures
        cols * rows >= n,
        1 <= rows <= cols,
{
    if n > 0 {
        assert(cols >= 1);
        assert(cols * rows >= n && 1 <= rows <= cols) by (nonlinear_arith)
            requires
                cols >= 1,
                n >= 1,
                cols * cols >= n,
                rows == (n + cols - 1) / (cols as int),
        ;
    }
}

/// Choose a grid `(cols, rows)` that is as square as possible for `n` cells.
pub fn grid_dims(n: usize) -> (r: (u32, u32))
    requires
        n <= u32::MAX,
    ensures
        grid_dims_model(n as nat, r.0 as nat, r.1 as nat),
{
    if n == 0 {
        return (1, 1);
    }
    let n64 = n as u64;
    let mut c: u64 = 1;
    while c * c < n64
        invariant
            1 <= c <= 65536,
            n64 == n,
            n64 <= u32::MAX,
            (c - 1) * (c - 1) < n64,
            c * c <= 65536 * 65536,
        decreases 65536 - c,
    {
        assert(c < 65536) by (nonlinear_arith)
            requires
                c * c < n64,
                n64 <= 4294967295,
                c >= 1,
        ;
        c = c + 1;
        assert(c * c <= 65536 * 65536) by (nonlinear_arith)
            requires
                c <= 65536,
                c >= 1,
        ;
    }
    let rows = (n64 + c - 1) / c;
    assert(rows == (n64 + c - 1) / (c as int));
    assert(rows <= n64) by (nonlinear_arith)
        requires
            c >= 1,
            rows == (n64 + c - 1) / (c as int),
            n64 >= 1,
    ;
    (c as u32, rows as u32)
}

// ---------------------------------------------------------------------------
// Painting
// ---------------------------------------------------------------------------

/// Byte `c` of pixel `(x, y)` after `with_pixel`: the new colour at that
/// pixel, the old bytes everywhere else.
pub proof fn lemma_with_pixel_at(raw: Seq<u8>, w: int, h: int, x: int, y: int, px: Seq<u8>, xx: int, yy: int)
    requires
        raw.len() == w * h * 4,
        px.len() == 4,
        0 <= x < w,
        0 <= y < h,
        0 <= xx < w,
        0 <= yy < h,
    ensures
        pixel_at(with_pixel(raw, w, x, y, px), w, xx, yy) == if xx == x && yy == y {
            px
        } else {
            pixel_at(raw, w, xx, yy)
        },
{
    lemma_pix_bounds(w, h, x, y);
    lemma_pix_bounds(w, h, xx, yy);
    if xx != x || yy != y {
        lemma_pix_disjoint(w, x, y, xx, yy);
    }
    assert(pixel_at(with_pixel(raw, w, x, y, px), w, xx, yy) =~= if xx == x && yy == y {
        px
    } else {
        pixel_at(raw, w, xx, yy)
    });
}

/// Row `y` painted `px` from column `x0` up to (not including) `x1`, left to
/// right.
pub open spec fn paint_row(raw: Seq<u8>, w: int, y: int, x0: int, x1: int, px: Seq<u8>) -> Seq<u8>
    decreases x1 - x0,
{
    if x1 <= x0 {
        raw
    } else {
        with_pixel(paint_row(raw, w, y, x0, x1 - 1, px), w, x1 - 1, y, px)
    }
}

/// The rectangle of columns `x0..x1` and rows `y0..y1` painted `px`, row by
/// row.
pub open spec fn paint_rect(raw: Seq<u8>, w: int, x0: int, y0: int, x1: int, y1: int, px: Seq<u8>) -> Seq<u8>
    decreases y1 - y0,
{
    if y1 <= y0 {
        raw
    } else {
        paint_row(paint_rect(raw, w, x0, y0, x1, y1 - 1, px), w, y1 - 1, x0, x1, px)
    }
}

/// Each listed point that lies inside the `w × h` image painted `px`, in
/// order.
pub open spec fn paint_points(raw: Seq<u8>, w: int, h: int, ps: Seq<(int, int)>, px: Seq<u8>) -> Seq<u8>
    decreases ps.len(),
{
    if ps.len() == 0 {
        raw
    } else {
        let p = ps.last();
        let r = paint_points(raw, w, h, ps.drop_last(), px);
        if 0 <= p.0 < w && 0 <= p.1 < h {
            with_pixel(r, w, p.0, p.1, px)
        } else {
            r
        }
    }
}

/// Paint the rectangle of columns `x0..x1` and rows `y0..y1`.
fn fill_rect(c: &mut Canvas, x0: u32, y0: u32, x1: u32, y1: u32, px: [u8; 4])
    requires
        x1 <= old(c).w(),
        y1 <= old(c).h(),
    ensures
        final(c).w() == old(c).w(),
        final(c).h() == old(c).h(),
        final(c).raw() == paint_rect(
            old(c).raw(),
            old(c).w() as int,
            x0 as int,
            y0 as int,
            x1 as int,
            y1 as int,
            px@,
        ),
{
    let ghost start = c.raw();
    let ghost w = c.w() as int;
    let mut y = y0;
    while y < y1
        invariant
            c.w() == w,
            c.h() == old(c).h(),
            x1 <= w,
            y1 <= c.h(),
            y0 <= y,
            y <= y1 || y == y0,
            c.raw() == paint_rect(start, w, x0 as int, y0 as int, x1 as int, y as int, px@),
        decreases y1 - y,
    {
        let ghost before = c.raw();
        let mut x = x0;
        while x < x1
            invariant
                c.w() == w,
                c.h() == old(c).h(),
                x1 <= w,
                y < y1 <= c.h(),
                x0 <= x,
                x <= x1 || x == x0,
                c.raw() == paint_row(before, w, y as int, x0 as int, x as int, px@),
            decreases x1 - x,
        {
            c.put_pixel(x, y, px);
            x = x + 1;
        }
        assert(paint_row(before, w, y as int, x0 as int, x as int, px@) == paint_row(
            before,
            w,
            y as int,
            x0 as int,
            x1 as int,
            px@,
        ));
        y = y + 1;
    }
    assert(paint_rect(start, w, x0 as int, y0 as int, x1 as int, y as int, px@) == paint_rect(
        start,
        w,
        x0 as int,
        y0 as int,
        x1 as int,
        y1 as int,
        px@,
    ));
}

/// Paint each listed point that lies inside the image.
fn fill_points(c: &mut Canvas, ps: &Vec<(u32, u32)>, px: [u8; 4])
    ensures
        final(c).w() == old(c).w(),
        final(c).h() == old(c).h(),
        final(c).raw() == paint_points(
            old(c).raw(),
            old(c).w() as int,
            old(c).h() as int,
            as_int_pixels(ps@),
            px@,
        ),
{
    let ghost start = c.raw();
    let w = c.width();
    let h = c.height();
    let mut k: usize = 0;
    while k < ps.len()
        invariant
            k <= ps@.len(),
            c.w() == w,
            c.h() == h,
            w == old(c).w(),
            h == old(c).h(),
            c.raw() == paint_points(start, w as int, h as int, as_int_pixels(ps@.take(k as int)), px@),
        decreases ps@.len() - k,
    {
        let (px_x, px_y) = ps[k];
        proof {
            let a = as_int_pixels(ps@.take(k + 1));
            assert(a.drop_last() =~= as_int_pixels(ps@.take(k as int)));
            assert(a.last() == (px_x as int, px_y as int));
        }
        if px_x < w && px_y < h {
            c.put_pixel(px_x, px_y, px);
        }
        k = k + 1;
    }
    assert(ps@.take(k as int) =~= ps@);
}

// ---------------------------------------------------------------------------
// Contact sheets
// ---------------------------------------------------------------------------

/// Padding inside each cell, in pixels.
pub const PAD: u32 = 6;

/// One labeled cell: a caption and its rendered image.
#[derive(Debug)]
pub struct Cell {
    pub label: String,
    pub image: Canvas,
}

/// White canvas background.
pub open spec fn sheet_bg() -> Seq<u8> {
    seq![255u8, 255u8, 255u8, 255u8]
}

/// Label strip background (light grey).
pub open spec fn strip_bg() -> Seq<u8> {
    seq![235u8, 235u8, 235u8, 255u8]
}

/// Caption text colour.
pub open spec fn caption_ink() -> Seq<u8> {
    seq![20u8, 20u8, 20u8, 255u8]
}

/// Cell size: that of the first cell's image, or 400 × 300 without cells.
pub open spec fn cell_w(cells: Seq<Cell>) -> int {
    if cells.len() == 0 {
        400
    } else {
        cells[0].image.w() as int
    }
}

pub open spec fn cell_h(cells: Seq<Cell>) -> int {
    if cells.len() == 0 {
        300
    } else {
        cells[0].image.h() as int
    }
}

/// Caption scale: one step per 140 pixels of cell width, and at least 2, so
/// captions stay legible relative to the cell.
pub open spec fn caption_scale(cells: Seq<Cell>) -> int {
    if cell_w(cells) / 140 >= 2 {
        cell_w(cells) / 140
    } else {
        2
    }
}

/// Height of a cell's label strip.
pub open spec fn strip_h(cells: Seq<Cell>) -> int {
    5 * caption_scale(cells) + 2 * PAD
}

pub open spec fn tile_w(cells: Seq<Cell>) -> int {
    cell_w(cells) + 2 * PAD
}

pub open spec fn tile_h(cells: Seq<Cell>) -> int {
    cell_h(cells) + strip_h(cells) + PAD
}

/// The number of columns: as asked, but at least one.
pub open spec fn sheet_cols(cols: u32) -> int {
    if cols == 0 {
        1
    } else {
        cols as int
    }
}

/// Rows for `n` cells (at least one row), rounding up.
pub open spec fn sheet_rows(n: int, cols: u32) -> int {
    let m = if n == 0 {
        1
    } else {
        n
    };
    m / sheet_cols(cols) + if m % sheet_cols(cols) != 0 {
        1int
    } else {
        0int
    }
}

pub open spec fn sheet_w(cells: Seq<Cell>, cols: u32) -> int {
    tile_w(cells) * sheet_cols(cols)
}

pub open spec fn sheet_h(cells: Seq<Cell>, cols: u32) -> int {
    tile_h(cells) * sheet_rows(cells.len() as int, cols)
}

/// Top-left corner of cell `i`'s tile: cells fill the grid row by row.
pub open spec fn tile_x(cells: Seq<Cell>, cols: u32, i: int) -> int {
    (i % sheet_cols(cols)) * tile_w(cells)
}

pub open spec fn tile_y(cells: Seq<Cell>, cols: u32, i: int) -> int {
    (i / sheet_cols(cols)) * tile_h(cells)
}

/// Where cell `i`'s caption starts: horizontally centred over the cell's
/// width (flush left when wider), below the strip's top padding.
pub open spec fn caption_x(cells: Seq<Cell>, cols: u32, i: int) -> int {
    let tw = text_width_model(cells[i].label@.len()) * caption_scale(cells);
    tile_x(cells, cols, i) + PAD + if cell_w(cells) > tw {
        (cell_w(cells) - tw) / 2
    } else {
        0
    }
}

pub open spec fn caption_y(cells: Seq<Cell>, cols: u32, i: int) -> int {
    tile_y(cells, cols, i) + PAD
}

/// Cell `i` drawn onto the sheet: its label strip, its caption (clipped to the
/// sheet), then its image overlaid below the strip.
pub open spec fn paint_cell(raw: Seq<u8>, cells: Seq<Cell>, cols: u32, i: int) -> Seq<u8> {
    let sw = sheet_w(cells, cols);
    let sh = sheet_h(cells, cols);
    let ox = tile_x(cells, cols, i);
    let oy = tile_y(cells, cols, i);
    let x1 = if ox + tile_w(cells) <= sw {
        ox + tile_w(cells)
    } else {
        sw
    };
    let y1 = if oy + strip_h(cells) <= sh {
        oy + strip_h(cells)
    } else {
        sh
    };
    let strip = paint_rect(raw, sw, ox, oy, x1, y1, strip_bg());
    let label = cells[i].label@;
    let ink = text_pixels(
        label,
        caption_x(cells, cols, i),
        caption_y(cells, cols, i),
        caption_scale(cells) as nat,
        label.len(),
    );
    let texted = paint_points(strip, sw, sh, ink, caption_ink());
    let img = cells[i].image;
    overlay_pixels(
        texted,
        sw as u32,
        sh as u32,
        img.raw(),
        img.w() as u32,
        img.h() as u32,
        ox + PAD,
        oy + strip_h(cells),
    )
}

/// The sheet after drawing its first `k` cells on the white background.
pub open spec fn sheet_pixels(cells: Seq<Cell>, cols: u32, k: int) -> Seq<u8>
    decreases k,
{
    if k <= 0 {
        filled((sheet_w(cells, cols) * sheet_h(cells, cols)) as nat, sheet_bg())
    } else {
        paint_cell(sheet_pixels(cells, cols, k - 1), cells, cols, k - 1)
    }
}

/// The caption of cell `i` can be measured and drawn in `u32` arithmetic.
pub open spec fn caption_fits(cells: Seq<Cell>, cols: u32, i: int) -> bool {
    let n = cells[i].label@.len();
    &&& n * 4 <= u32::MAX + 1
    &&& text_width_model(n) * caption_scale(cells) <= u32::MAX
    &&& caption_x(cells, cols, i) + n * 4 * caption_scale(cells) <= u32::MAX
}

/// The sheet's geometry fits in `u32` and its pixels in memory.
pub open spec fn sheet_fits(cells: Seq<Cell>, cols: u32) -> bool {
    &&& cells.len() <= u32::MAX
    &&& sheet_w(cells, cols) <= u32::MAX
    &&& sheet_h(cells, cols) <= u32::MAX
    &&& sheet_w(cells, cols) * sheet_h(cells, cols) * 4 <= usize::MAX
    &&& forall|i: int| 0 <= i < cells.len() ==> #[trigger] caption_fits(cells, cols, i)
}

/// Every cell's tile lies inside the sheet.
pub proof fn lemma_tile_inside_sheet(cells: Seq<Cell>, cols: u32, i: int)
    requires
        0 <= i < cells.len(),
    ensures
        0 <= tile_x(cells, cols, i),
        tile_x(cells, cols, i) + tile_w(cells) <= sheet_w(cells, cols),
        0 <= tile_y(cells, cols, i),
        tile_y(cells, cols, i) + tile_h(cells) <= sheet_h(cells, cols),
{
    let c = sheet_cols(cols);
    lemma_tile_inside(cells.len() as int, c, sheet_rows(cells.len() as int, cols), tile_w(cells), tile_h(cells), i);
}

/// Distinct cells get tiles that do not overlap.
pub proof fn lemma_tiles_disjoint(cells: Seq<Cell>, cols: u32, i: int, j: int)
    requires
        0 <= i < j,
    ensures
        tile_x(cells, cols, i) + tile_w(cells) <= tile_x(cells, cols, j)
            || tile_x(cells, cols, j) + tile_w(cells) <= tile_x(cells, cols, i)
            || tile_y(cells, cols, i) + tile_h(cells) <= tile_y(cells, cols, j)
            || tile_y(cells, cols, j) + tile_h(cells) <= tile_y(cells, cols, i),
{
    let c = sheet_cols(cols);
    let tw = tile_w(cells);
    let th = tile_h(cells);
    assert(c >= 1 && tw >= 0 && th >= 0);
    let (a, b) = (i % c, j % c);
    let (ra, rb) = (i / c, j / c);
    assert(i == ra * c + a && j == rb * c + b) by (nonlinear_arith)
        requires
            c >= 1,
            a == i % c,
            b == j % c,
            ra == i / c,
            rb == j / c,
    ;
    if a == b {
        assert(ra != rb);
        assert(ra * th + th <= rb * th || rb * th + th <= ra * th) by (nonlinear_arith)
            requires
                ra != rb,
                th >= 0,
        ;
    } else {
        assert(a * tw + tw <= b * tw || b * tw + tw <= a * tw) by (nonlinear_arith)
            requires
                a != b,
                tw >= 0,
        ;
    }
}

/// Tile `i` of `n` lies inside the sheet.
proof fn lemma_tile_inside(n: int, c: int, rows: int, tw: int, th: int, i: int)
    requires
        c >= 1,
        tw >= 0,
        th >= 0,
        0 <= i < n,
        rows == n / c + if n % c != 0 {
            1int
        } else {
            0int
        },
    ensures
        0 <= (i % c) * tw,
        (i % c) * tw + tw <= c * tw,
        0 <= (i / c) * th,
        (i / c) * th + th <= rows * th,
{
    assert(0 <= i % c < c);
    assert((i % c) * tw + tw <= c * tw && 0 <= (i % c) * tw) by (nonlinear_arith)
        requires
            0 <= i % c < c,
            tw >= 0,
    ;
    assert(i / c < rows) by (nonlinear_arith)
        requires
            c >= 1,
            0 <= i < n,
            rows == n / c + if n % c != 0 {
                1int
            } else {
                0int
            },
    ;
    assert((i / c) * th + th <= rows * th && 0 <= (i / c) * th) by (nonlinear_arith)
        requires
            0 <= i / c < rows,
            th >= 0,
    ;
}

/// Composite cells into a labeled grid with `cols` columns (at least one):
/// each cell gets a tile of the first cell's size plus padding and a label
/// strip, its caption centred in the strip and its image below; cells whose
/// images differ in size are drawn clipped at the tile's top-left.
pub fn grid_sheet(cells: &[Cell], cols: u32) -> (r: Canvas)
    requires
        sheet_fits(cells@, cols),
    ensures
        r.w() == sheet_w(cells@, cols),
        r.h() == sheet_h(cells@, cols),
        r.raw() == sheet_pixels(cells@, cols, cells@.len() as int),
{
    let ghost cs = cells@;
    let c = max1(cols);
    let n = cells.len() as u32;
    let m = max1(n);
    proof {
        assert(m % c != 0 ==> m / c < u32::MAX) by (nonlinear_arith)
            requires
                c >= 1,
                m >= 1,
                m <= u32::MAX,
        ;
        assert(m / c + (if m % c != 0 { 1int } else { 0int }) >= 1) by (nonlinear_arith)
            requires
                c >= 1,
                m >= 1,
        ;
    }
    let rows = if m % c != 0 {
        m / c + 1
    } else {
        m / c
    };
    let (cw, ch) = if cells.len() == 0 {
        (400u32, 300u32)
    } else {
        cells[0].image.dimensions()
    };
    let scale = if cw / 140 >= 2 {
        cw / 140
    } else {
        2
    };
    proof {
        assert(rows == sheet_rows(cs.len() as int, cols));
        assert(rows >= 1);
        assert(c >= 1);
        assert(tile_h(cs) <= sheet_h(cs, cols)) by (nonlinear_arith)
            requires
                sheet_h(cs, cols) == tile_h(cs) * rows,
                rows >= 1,
                tile_h(cs) >= 0,
        ;
        assert(tile_w(cs) <= sheet_w(cs, cols)) by (nonlinear_arith)
            requires
                sheet_w(cs, cols) == tile_w(cs) * c,
                c >= 1,
                tile_w(cs) >= 0,
        ;
    }
    let label_h = 5 * scale + 2 * PAD;
    let tw_ = cw + 2 * PAD;
    let th_ = ch + label_h + PAD;
    let sw = tw_ * c;
    let sh = th_ * rows;
    let mut canvas = Canvas::from_pixel(sw, sh, [255, 255, 255, 255]);
    proof {
        assert([255u8, 255u8, 255u8, 255u8]@ =~= sheet_bg());
    }
    let mut i: usize = 0;
    while i < cells.len()
        invariant
            cs == cells@,
            sheet_fits(cs, cols),
            c == sheet_cols(cols),
            rows == sheet_rows(cs.len() as int, cols),
            n == cs.len(),
            cw == cell_w(cs),
            scale == caption_scale(cs),
            label_h == strip_h(cs),
            tw_ == tile_w(cs),
            th_ == tile_h(cs),
            sw == sheet_w(cs, cols),
            sh == sheet_h(cs, cols),
            canvas.w() == sw,
            canvas.h() == sh,
            i <= cs.len(),
            canvas.raw() == sheet_pixels(cs, cols, i as int),
        decreases cs.len() - i,
    {
        let cell = &cells[i];
        let iu = i as u32;
        proof {
            lemma_tile_inside(n as int, c as int, rows as int, tw_ as int, th_ as int, i as int);
            assert(caption_fits(cs, cols, i as int));
        }
        let col = iu % c;
        let row = iu / c;
        let ox = col * tw_;
        let oy = row * th_;
        let x1 = min_u32(ox + tw_, sw);
        let y1 = min_u32(oy + label_h, sh);
        fill_rect(&mut canvas, ox, oy, x1, y1, [235, 235, 235, 255]);
        proof {
            assert([235u8, 235u8, 235u8, 255u8]@ =~= strip_bg());
        }
        let tw = text_width(cell.label.as_str()) * scale;
        let slack = if cw > tw {
            cw - tw
        } else {
            0
        };
        let tx = ox + PAD + slack / 2;
        let ty = oy + PAD;
        let ink = draw_text(cell.label.as_str(), tx, ty, scale);
        fill_points(&mut canvas, &ink, [20, 20, 20, 255]);
        proof {
            assert([20u8, 20u8, 20u8, 255u8]@ =~= caption_ink());
        }
        let img_x = ox + PAD;
        let img_y = oy + label_h;
        canvas.overlay(&cell.image, img_x as i64, img_y as i64);
        i = i + 1;
    }
    canvas
}

/// The column counts a contact sheet of `n` cells may use: the least `c`
/// with `c * c >= n`, and one column for no cells.
pub open spec fn contact_cols(n: nat, cols: u32) -> bool {
    if n == 0 {
        cols == 1
    } else {
        is_ceil_sqrt(cols as nat, n)
    }
}

/// Composite cells into a labeled grid with a roughly square layout: as
/// many columns as `grid_dims` chooses for the number of cells.
pub fn contact_sheet(cells: &[Cell]) -> (r: Canvas)
    requires
        cells@.len() <= u32::MAX,
        forall|cols: u32| #[trigger] contact_cols(cells@.len() as nat, cols) ==> sheet_fits(cells@, cols),
    ensures
        exists|cols: u32|
            #[trigger] contact_cols(cells@.len() as nat, cols) && r.w() == sheet_w(cells@, cols)
                && r.h() == sheet_h(cells@, cols) && r.raw() == sheet_pixels(
                cells@,
                cols,
                cells@.len() as int,
            ),
{
    let (cols, _) = grid_dims(cells.len());
    assert(contact_cols(cells@.len() as nat, cols));
    grid_sheet(cells, cols)
}

// ---------------------------------------------------------------------------
// Difference image
// ---------------------------------------------------------------------------

/// The background of a difference image.
pub open spec fn diff_bg() -> Seq<u8> {
    seq![28u8, 28u8, 32u8, 255u8]
}

/// The colour of a changed pixel.
pub open spec fn diff_red() -> Seq<u8> {
    seq![235u8, 60u8, 60u8, 255u8]
}

pub open spec fn channel_diff(a: u8, b: u8) -> int {
    if a >= b {
        a - b
    } else {
        b - a
    }
}

/// The largest red, green or blue difference of two pixels.
pub open spec fn max_channel_diff(pa: Seq<u8>, pb: Seq<u8>) -> int {
    let d0 = channel_diff(pa[0], pb[0]);
    let d1 = channel_diff(pa[1], pb[1]);
    let d2 = channel_diff(pa[2], pb[2]);
    let m = if d0 >= d1 {
        d0
    } else {
        d1
    };
    if m >= d2 {
        m
    } else {
        d2
    }
}

/// Two pixels differ when some colour channel differs by more than
/// `threshold`.
pub open spec fn pixels_differ(pa: Seq<u8>, pb: Seq<u8>, threshold: u8) -> bool {
    max_channel_diff(pa, pb) > threshold
}

/// A changed pixel is red; an unchanged one is `b`'s grey level, halved and
/// lifted by 18.
pub open spec fn diff_pixel(pa: Seq<u8>, pb: Seq<u8>, threshold: u8) -> Seq<u8> {
    if pixels_differ(pa, pb, threshold) {
        diff_red()
    } else {
        let g = ((pb[0] + pb[1] + pb[2]) / 3) / 2 + 18;
        seq![g as u8, g as u8, g as u8, 255u8]
    }
}

/// A pixel counts as changed exactly when its red, green or blue channel
/// differs between the two images by more than the threshold (alpha plays
/// no part); a changed pixel is drawn red and an unchanged one grey.
pub proof fn lemma_changed_iff_some_channel(pa: Seq<u8>, pb: Seq<u8>, threshold: u8)
    requires
        pa.len() == 4,
        pb.len() == 4,
    ensures
        pixels_differ(pa, pb, threshold) <==> ((pa[0] - pb[0] > threshold || pb[0] - pa[0]
            > threshold) || (pa[1] - pb[1] > threshold || pb[1] - pa[1] > threshold) || (pa[2]
            - pb[2] > threshold || pb[2] - pa[2] > threshold)),
        pixels_differ(pa, pb, threshold) ==> diff_pixel(pa, pb, threshold) == seq![
            235u8,
            60u8,
            60u8,
            255u8,
        ],
        !pixels_differ(pa, pb, threshold) ==> (diff_pixel(pa, pb, threshold)[0] == diff_pixel(
            pa,
            pb,
            threshold,
        )[1] && diff_pixel(pa, pb, threshold)[1] == diff_pixel(pa, pb, threshold)[2]),
        pixels_differ(pa, pb, threshold) == pixels_differ(pb, pa, threshold),
{
}

/// How many of the first `x` pixels of row `y` differ.
pub open spec fn row_changes(a: Canvas, b: Canvas, threshold: u8, y: int, x: int) -> nat
    decreases x,
{
    if x <= 0 {
        0
    } else {
        row_changes(a, b, threshold, y, x - 1) + if pixels_differ(
            pixel_at(a.raw(), a.w() as int, x - 1, y),
            pixel_at(b.raw(), b.w() as int, x - 1, y),
            threshold,
        ) {
            1nat
        } else {
            0nat
        }
    }
}

/// How many pixels of the first `y` rows, `w` pixels each, differ.
pub open spec fn changes(a: Canvas, b: Canvas, threshold: u8, w: int, y: int) -> nat
    decreases y,
{
    if y <= 0 {
        0
    } else {
        changes(a, b, threshold, w, y - 1) + row_changes(a, b, threshold, y - 1, w)
    }
}

proof fn lemma_row_changes_bound(a: Canvas, b: Canvas, threshold: u8, y: int, x: int)
    requires
        x >= 0,
    ensures
        row_changes(a, b, threshold, y, x) <= x,
    decreases x,
{
    if x > 0 {
        lemma_row_changes_bound(a, b, threshold, y, x - 1);
    }
}

/// The changed pixels are among the compared ones, so the changed fraction
/// is at most one.
pub proof fn lemma_changes_bound(a: Canvas, b: Canvas, threshold: u8, w: int, y: int)
    requires
        w >= 0,
        y >= 0,
    ensures
        changes(a, b, threshold, w, y) <= w * y,
    decreases y,
{
    if y > 0 {
        lemma_changes_bound(a, b, threshold, w, y - 1);
        lemma_row_changes_bound(a, b, threshold, y - 1, w);
        assert(w * (y - 1) + w == w * y) by (nonlinear_arith);
    }
}

/// An image compared with itself has no changed pixel, whatever the
/// threshold.
pub proof fn lemma_no_changes_against_itself(a: Canvas, threshold: u8, w: int, y: int)
    ensures
        changes(a, a, threshold, w, y) == 0,
    decreases y,
{
    if y > 0 {
        lemma_no_changes_against_itself(a, threshold, w, y - 1);
        lemma_row_unchanged(a, threshold, y - 1, w);
    }
}

proof fn lemma_row_unchanged(a: Canvas, threshold: u8, y: int, x: int)
    ensures
        row_changes(a, a, threshold, y, x) == 0,
    decreases x,
{
    if x > 0 {
        lemma_row_unchanged(a, threshold, y, x - 1);
    }
}

fn max1(v: u32) -> (r: u32)
    ensures
        r == if v == 0 {
            1
        } else {
            v
        },
{
    if v == 0 {
        1
    } else {
        v
    }
}

fn min_u32(a: u32, b: u32) -> (r: u32)
    ensures
        r == if a <= b {
            a
        } else {
            b
        },
{
    if a <= b {
        a
    } else {
        b
    }
}

fn abs_diff(a: u8, b: u8) -> (r: u8)
    ensures
        r == channel_diff(a, b),
{
    if a >= b {
        a - b
    } else {
        b - a
    }
}

fn diff_pixel_exec(pa: [u8; 4], pb: [u8; 4], threshold: u8) -> (r: ([u8; 4], bool))
    ensures
        r.0@ == diff_pixel(pa@, pb@, threshold),
        r.1 == pixels_differ(pa@, pb@, threshold),
{
    let d0 = abs_diff(pa[0], pb[0]);
    let d1 = abs_diff(pa[1], pb[1]);
    let d2 = abs_diff(pa[2], pb[2]);
    let m = if d0 >= d1 {
        d0
    } else {
        d1
    };
    let d = if m >= d2 {
        m
    } else {
        d2
    };
    if d > threshold {
        let r = [235u8, 60, 60, 255];
        assert(r@ =~= diff_red());
        (r, true)
    } else {
        let sum: u32 = pb[0] as u32 + pb[1] as u32 + pb[2] as u32;
        let g: u8 = ((sum / 3) as u8) / 2 + 18;
        let r = [g, g, g, 255];
        assert(r@ =~= diff_pixel(pa@, pb@, threshold));
        (r, false)
    }
}

/// The difference image of `a` and `b` over the pixels both have: a pixel
/// whose red, green or blue differs by more than `threshold` is red, any
/// other shows `b` as a dimmed grey, and the image is at least 1 × 1 on a
/// dark background. Also returns how many pixels differ and how many were
/// compared, whose ratio is the changed fraction.
pub fn diff_image(a: &Canvas, b: &Canvas, threshold: u8) -> (r: (Canvas, u64, u64))
    requires
        ({
            let w = if a.w() <= b.w() { a.w() } else { b.w() };
            let h = if a.h() <= b.h() { a.h() } else { b.h() };
            (if w == 0 { 1 } else { w }) * (if h == 0 { 1 } else { h }) * 4 <= usize::MAX
        }),
    ensures
        ({
            let w = if a.w() <= b.w() { a.w() } else { b.w() };
            let h = if a.h() <= b.h() { a.h() } else { b.h() };
            let ow = if w == 0 { 1 } else { w };
            let oh = if h == 0 { 1 } else { h };
            &&& r.0.w() == ow
            &&& r.0.h() == oh
            &&& r.0.raw().len() == ow * oh * 4
            &&& forall|x: int, y: int|
                0 <= x < ow && 0 <= y < oh ==> #[trigger] pixel_at(r.0.raw(), ow as int, x, y) == if x
                    < w && y < h {
                    diff_pixel(
                        pixel_at(a.raw(), a.w() as int, x, y),
                        pixel_at(b.raw(), b.w() as int, x, y),
                        threshold,
                    )
                } else {
                    diff_bg()
                }
            &&& r.1 == changes(*a, *b, threshold, w as int, h as int)
            &&& r.2 == w * h
        }),
{
    let w = min_u32(a.width(), b.width());
    let h = min_u32(a.height(), b.height());
    let ow = max1(w);
    let oh = max1(h);
    let mut out = Canvas::from_pixel(ow, oh, [28, 28, 32, 255]);
    let ghost bg = seq![28u8, 28u8, 32u8, 255u8];
    proof {
        assert(bg =~= diff_bg());
        assert forall|x: int, y: int| 0 <= x < ow && 0 <= y < oh implies #[trigger] pixel_at(
            out.raw(),
            ow as int,
            x,
            y,
        ) == diff_bg() by {
            lemma_filled_pixel(bg, ow as int, oh as int, x, y);
        }
    }
    let mut changed: u64 = 0;
    let mut y: u32 = 0;
    while y < h
        invariant
            out.w() == ow,
            out.h() == oh,
            out.raw().len() == ow * oh * 4,
            w <= ow,
            h <= oh,
            w <= a.w(),
            w <= b.w(),
            h <= a.h(),
            h <= b.h(),
            y <= h,
            changed == changes(*a, *b, threshold, w as int, y as int),
            forall|xx: int, yy: int|
                0 <= xx < ow && 0 <= yy < oh ==> #[trigger] pixel_at(out.raw(), ow as int, xx, yy)
                    == if xx < w && yy < y {
                    diff_pixel(
                        pixel_at(a.raw(), a.w() as int, xx, yy),
                        pixel_at(b.raw(), b.w() as int, xx, yy),
                        threshold,
                    )
                } else {
                    diff_bg()
                },
        decreases h - y,
    {
        let mut x: u32 = 0;
        let ghost row_start = changed;
        proof {
            lemma_changes_bound(*a, *b, threshold, w as int, y as int);
        }
        while x < w
            invariant
                out.w() == ow,
                out.h() == oh,
                out.raw().len() == ow * oh * 4,
                w <= ow,
                h <= oh,
                w <= a.w(),
                w <= b.w(),
                h <= a.h(),
                h <= b.h(),
                y < h,
                x <= w,
                row_start == changes(*a, *b, threshold, w as int, y as int),
                changed == row_start + row_changes(*a, *b, threshold, y as int, x as int),
                changes(*a, *b, threshold, w as int, y as int) <= w * y,
                forall|xx: int, yy: int|
                    0 <= xx < ow && 0 <= yy < oh ==> #[trigger] pixel_at(out.raw(), ow as int, xx, yy)
                        == if xx < w && (yy < y || (yy == y && xx < x)) {
                        diff_pixel(
                            pixel_at(a.raw(), a.w() as int, xx, yy),
                            pixel_at(b.raw(), b.w() as int, xx, yy),
                            threshold,
                        )
                    } else {
                        diff_bg()
                    },
            decreases w - x,
        {
            let pa = a.get_pixel(x, y);
            let pb = b.get_pixel(x, y);
            let (px, differs) = diff_pixel_exec(pa, pb, threshold);
            proof {
                lemma_row_changes_bound(*a, *b, threshold, y as int, x as int);
                assert(w * y + w <= w * h) by (nonlinear_arith)
                    requires
                        y < h,
                ;
                assert((w as int) * (h as int) <= u32::MAX * u32::MAX) by (nonlinear_arith)
                    requires
                        w <= u32::MAX,
                        h <= u32::MAX,
                ;
            }
            if differs {
                changed = changed + 1;
            }
            let ghost old_raw = out.raw();
            out.put_pixel(x, y, px);
            proof {
                assert forall|xx: int, yy: int| 0 <= xx < ow && 0 <= yy < oh implies #[trigger] pixel_at(
                    out.raw(),
                    ow as int,
                    xx,
                    yy,
                ) == if xx < w && (yy < y || (yy == y && xx < x + 1)) {
                    diff_pixel(
                        pixel_at(a.raw(), a.w() as int, xx, yy),
                        pixel_at(b.raw(), b.w() as int, xx, yy),
                        threshold,
                    )
                } else {
                    diff_bg()
                } by {
                    lemma_with_pixel_at(old_raw, ow as int, oh as int, x as int, y as int, px@, xx, yy);
                }
            }
            x = x + 1;
        }
        y = y + 1;
    }
    proof {
        assert((w as int) * (h as int) <= u32::MAX * u32::MAX) by (nonlinear_arith)
            requires
                w <= u32::MAX,
                h <= u32::MAX,
        ;
    }
    let compared: u64 = (w as u64) * (h as u64);
    (out, changed, compared)
}

} // verus!
