//! A tiny self-contained 3×5 bitmap font, just enough to label contact-sheet
//! cells with view names.
//!
//! Each glyph is 5 rows tall and 3 columns wide. A row is the low 3 bits of a
//! byte, most significant bit = leftmost column.

use vstd::prelude::*;

use crate::text::{chars_of, lower_char, lower_char_exec};

verus! {

/// Width of a glyph in pixels (before scaling).
pub const GLYPH_W: u32 = 3;

/// Height of a glyph in pixels (before scaling).
pub const GLYPH_H: u32 = 5;

/// Horizontal gap between glyphs in pixels (before scaling).
pub const GLYPH_GAP: u32 = 1;

/// The 5-row bitmap of an (already lower-cased) character, if supported.
pub open spec fn glyph_rows(c: char) -> Option<Seq<u8>> {
    if c == 'a' {
        Some(seq![0b010u8, 0b101, 0b111, 0b101, 0b101])
    } else if c == 'b' {
        Some(seq![0b110u8, 0b101, 0b110, 0b101, 0b110])
    } else if c == 'c' {
        Some(seq![0b011u8, 0b100, 0b100, 0b100, 0b011])
    } else if c == 'd' {
        Some(seq![0b110u8, 0b101, 0b101, 0b101, 0b110])
    } else if c == 'e' {
        Some(seq![0b111u8, 0b100, 0b110, 0b100, 0b111])
    } else if c == 'f' {
        Some(seq![0b111u8, 0b100, 0b110, 0b100, 0b100])
    } else if c == 'g' {
        Some(seq![0b011u8, 0b100, 0b101, 0b101, 0b011])
    } else if c == 'h' {
        Some(seq![0b101u8, 0b101, 0b111, 0b101, 0b101])
    } else if c == 'i' {
        Some(seq![0b111u8, 0b010, 0b010, 0b010, 0b111])
    } else if c == 'k' {
        Some(seq![0b101u8, 0b110, 0b100, 0b110, 0b101])
    } else if c == 'l' {
        Some(seq![0b100u8, 0b100, 0b100, 0b100, 0b111])
    } else if c == 'm' {
        Some(seq![0b101u8, 0b111, 0b111, 0b101, 0b101])
    } else if c == 'n' {
        Some(seq![0b101u8, 0b111, 0b111, 0b111, 0b101])
    } else if c == 'o' {
        Some(seq![0b010u8, 0b101, 0b101, 0b101, 0b010])
    } else if c == 'p' {
        Some(seq![0b110u8, 0b101, 0b110, 0b100, 0b100])
    } else if c == 'r' {
        Some(seq![0b110u8, 0b101, 0b110, 0b101, 0b101])
    } else if c == 's' {
        Some(seq![0b011u8, 0b100, 0b010, 0b001, 0b110])
    } else if c == 't' {
        Some(seq![0b111u8, 0b010, 0b010, 0b010, 0b010])
    } else if c == 'u' {
        Some(seq![0b101u8, 0b101, 0b101, 0b101, 0b111])
    } else if c == 'x' {
        Some(seq![0b101u8, 0b101, 0b010, 0b101, 0b101])
    } else if c == 'y' {
        Some(seq![0b101u8, 0b101, 0b010, 0b010, 0b010])
    } else if c == '0' {
        Some(seq![0b111u8, 0b101, 0b101, 0b101, 0b111])
    } else if c == '1' {
        Some(seq![0b010u8, 0b110, 0b010, 0b010, 0b111])
    } else if c == '2' {
        Some(seq![0b110u8, 0b001, 0b010, 0b100, 0b111])
    } else if c == '3' {
        Some(seq![0b110u8, 0b001, 0b010, 0b001, 0b110])
    } else if c == ' ' {
        Some(seq![0u8, 0, 0, 0, 0])
    } else {
        None
    }
}

/// The bitmap of a character, ASCII case ignored.
pub open spec fn glyph_model(c: char) -> Option<Seq<u8>> {
    glyph_rows(lower_char(c))
}

/// Return the 5-row bitmap for a character, or `None` if unsupported.
pub fn glyph(c: char) -> (r: Option<[u8; 5]>)
    ensures
        match r {
            Some(g) => glyph_model(c) == Some(g@),
            None => glyph_model(c) is None,
        },
{
    let l = lower_char_exec(c);
    let g: [u8; 5] = if l == 'a' {
        [0b010, 0b101, 0b111, 0b101, 0b101]
    } else if l == 'b' {
        [0b110, 0b101, 0b110, 0b101, 0b110]
    } else if l == 'c' {
        [0b011, 0b100, 0b100, 0b100, 0b011]
    } else if l == 'd' {
        [0b110, 0b101, 0b101, 0b101, 0b110]
    } else if l == 'e' {
        [0b111, 0b100, 0b110, 0b100, 0b111]
    } else if l == 'f' {
        [0b111, 0b100, 0b110, 0b100, 0b100]
    } else if l == 'g' {
        [0b011, 0b100, 0b101, 0b101, 0b011]
    } else if l == 'h' {
        [0b101, 0b101, 0b111, 0b101, 0b101]
    } else if l == 'i' {
        [0b111, 0b010, 0b010, 0b010, 0b111]
    } else if l == 'k' {
        [0b101, 0b110, 0b100, 0b110, 0b101]
    } else if l == 'l' {
        [0b100, 0b100, 0b100, 0b100, 0b111]
    } else if l == 'm' {
        [0b101, 0b111, 0b111, 0b101, 0b101]
    } else if l == 'n' {
        [0b101, 0b111, 0b111, 0b111, 0b101]
    } else if l == 'o' {
        [0b010, 0b101, 0b101, 0b101, 0b010]
    } else if l == 'p' {
        [0b110, 0b101, 0b110, 0b100, 0b100]
    } else if l == 'r' {
        [0b110, 0b101, 0b110, 0b101, 0b101]
    } else if l == 's' {
        [0b011, 0b100, 0b010, 0b001, 0b110]
    } else if l == 't' {
        [0b111, 0b010, 0b010, 0b010, 0b010]
    } else if l == 'u' {
        [0b101, 0b101, 0b101, 0b101, 0b111]
    } else if l == 'x' {
        [0b101, 0b101, 0b010, 0b101, 0b101]
    } else if l == 'y' {
        [0b101, 0b101, 0b010, 0b010, 0b010]
    } else if l == '0' {
        [0b111, 0b101, 0b101, 0b101, 0b111]
    } else if l == '1' {
        [0b010, 0b110, 0b010, 0b010, 0b111]
    } else if l == '2' {
        [0b110, 0b001, 0b010, 0b100, 0b111]
    } else if l == '3' {
        [0b110, 0b001, 0b010, 0b001, 0b110]
    } else if l == ' ' {
        [0, 0, 0, 0, 0]
    } else {
        return None;
    };
    assert(glyph_model(c) == Some(g@));
    Some(g)
}

/// The pixel width of `n` characters at scale 1.
pub open spec fn text_width_model(n: nat) -> nat {
    if n == 0 {
        0
    } else {
        (n * 3 + (n - 1)) as nat
    }
}

/// The pixel width a string will occupy at scale 1 (before scaling).
pub fn text_width(text: &str) -> (r: u32)
    requires
        text@.len() * 4 <= u32::MAX + 1,
    ensures
        r == text_width_model(text@.len()),
{
    let n = chars_of(text).len() as u32;
    if n == 0 {
        0
    } else {
        n * GLYPH_W + (n - 1) * GLYPH_GAP
    }
}

/// Whether column `cx` (0 = leftmost) of a glyph row is lit.
pub open spec fn lit(row: u8, cx: int) -> bool {
    (row >> ((2 - cx) as u8)) & 1u8 == 1u8
}

/// The `cols` pixels `(x0 .. x0 + cols, y)`, left to right.
pub open spec fn pixel_row(x0: int, y: int, cols: nat) -> Seq<(int, int)>
    decreases cols,
{
    if cols == 0 {
        Seq::empty()
    } else {
        pixel_row(x0, y, (cols - 1) as nat).push((x0 + cols - 1, y))
    }
}

/// The first `rows` rows of a `scale × scale` block at `(x0, y0)`, top to
/// bottom, each left to right.
pub open spec fn pixel_block(x0: int, y0: int, scale: nat, rows: nat) -> Seq<(int, int)>
    decreases rows,
{
    if rows == 0 {
        Seq::empty()
    } else {
        pixel_block(x0, y0, scale, (rows - 1) as nat) + pixel_row(x0, y0 + rows - 1, scale)
    }
}

/// The pixels of the first `k` source cells of a glyph (row-major, 3 per row)
/// drawn with its top-left at `(x0, y0)`.
pub open spec fn glyph_cells(g: Seq<u8>, x0: int, y0: int, scale: nat, k: nat) -> Seq<(int, int)>
    decreases k,
{
    if k == 0 {
        Seq::empty()
    } else {
        let c = k - 1;
        let ry = c / 3;
        let cx = c % 3;
        glyph_cells(g, x0, y0, scale, (k - 1) as nat) + if lit(g[ry], cx) {
            pixel_block(x0 + cx * scale, y0 + ry * scale, scale, scale)
        } else {
            Seq::empty()
        }
    }
}

/// The pixels of the first `n` characters of `text` drawn at scale `scale`
/// with the top-left of the text at `(ox, oy)`; every character advances the
/// cursor by `4 × scale`, unsupported ones draw nothing.
pub open spec fn text_pixels(text: Seq<char>, ox: int, oy: int, scale: nat, n: nat) -> Seq<(int, int)>
    decreases n,
{
    if n == 0 {
        Seq::empty()
    } else {
        let i = n - 1;
        text_pixels(text, ox, oy, scale, (n - 1) as nat) + match glyph_model(text[i]) {
            Some(g) => glyph_cells(g, ox + i * 4 * scale, oy, scale, 15),
            None => Seq::empty(),
        }
    }
}

/// Every pixel of the sequence lies in the `w × h` box whose top-left corner
/// is `(x0, y0)`.
pub open spec fn within_box(ps: Seq<(int, int)>, x0: int, y0: int, w: int, h: int) -> bool {
    forall|j: int|
        0 <= j < ps.len() ==> x0 <= (#[trigger] ps[j]).0 < x0 + w && y0 <= ps[j].1 < y0 + h
}

proof fn lemma_within_concat(a: Seq<(int, int)>, b: Seq<(int, int)>, x0: int, y0: int, w: int, h: int)
    requires
        within_box(a, x0, y0, w, h),
        within_box(b, x0, y0, w, h),
    ensures
        within_box(a + b, x0, y0, w, h),
{
    assert forall|j: int| 0 <= j < (a + b).len() implies x0 <= (#[trigger] (a + b)[j]).0 < x0
        + w && y0 <= (a + b)[j].1 < y0 + h by {
        if j < a.len() {
            assert((a + b)[j] == a[j]);
        } else {
            assert((a + b)[j] == b[j - a.len()]);
        }
    }
}

proof fn lemma_within_grow(ps: Seq<(int, int)>, x0: int, y0: int, w: int, h: int, x1: int, y1: int, w1: int, h1: int)
    requires
        within_box(ps, x0, y0, w, h),
        x1 <= x0,
        x0 + w <= x1 + w1,
        y1 <= y0,
        y0 + h <= y1 + h1,
    ensures
        within_box(ps, x1, y1, w1, h1),
{
    assert forall|j: int| 0 <= j < ps.len() implies x1 <= (#[trigger] ps[j]).0 < x1 + w1 && y1
        <= ps[j].1 < y1 + h1 by {
        assert(x0 <= ps[j].0 < x0 + w && y0 <= ps[j].1 < y0 + h);
    }
}

proof fn lemma_row_within(x0: int, y: int, cols: nat)
    ensures
        within_box(pixel_row(x0, y, cols), x0, y, cols as int, 1),
    decreases cols,
{
    if cols > 0 {
        lemma_row_within(x0, y, (cols - 1) as nat);
        let prev = pixel_row(x0, y, (cols - 1) as nat);
        lemma_within_grow(prev, x0, y, cols - 1, 1, x0, y, cols as int, 1);
        let last = seq![(x0 + cols - 1, y)];
        lemma_within_concat(prev, last, x0, y, cols as int, 1);
        assert(pixel_row(x0, y, cols) == prev + last);
    }
}

proof fn lemma_block_within(x0: int, y0: int, scale: nat, rows: nat)
    ensures
        within_box(pixel_block(x0, y0, scale, rows), x0, y0, scale as int, rows as int),
    decreases rows,
{
    if rows > 0 {
        lemma_block_within(x0, y0, scale, (rows - 1) as nat);
        let prev = pixel_block(x0, y0, scale, (rows - 1) as nat);
        lemma_within_grow(prev, x0, y0, scale as int, rows - 1, x0, y0, scale as int, rows as int);
        let row = pixel_row(x0, y0 + rows - 1, scale);
        lemma_row_within(x0, y0 + rows - 1, scale);
        lemma_within_grow(row, x0, y0 + rows - 1, scale as int, 1, x0, y0, scale as int, rows as int);
        lemma_within_concat(prev, row, x0, y0, scale as int, rows as int);
    }
}

proof fn lemma_cells_within(g: Seq<u8>, x0: int, y0: int, scale: nat, k: nat)
    requires
        k <= 15,
    ensures
        within_box(glyph_cells(g, x0, y0, scale, k), x0, y0, 3 * (scale as int), 5 * (scale as int)),
    decreases k,
{
    if k > 0 {
        let c = k - 1;
        let ry = c / 3;
        let cx = c % 3;
        lemma_cells_within(g, x0, y0, scale, (k - 1) as nat);
        let prev = glyph_cells(g, x0, y0, scale, (k - 1) as nat);
        let blk = if lit(g[ry], cx) {
            pixel_block(x0 + cx * scale, y0 + ry * scale, scale, scale)
        } else {
            Seq::empty()
        };
        assert(0 <= cx * scale && cx * scale + scale <= 3 * scale) by (nonlinear_arith)
            requires
                0 <= cx <= 2,
        ;
        assert(0 <= ry * scale && ry * scale + scale <= 5 * (scale as int)) by (nonlinear_arith)
            requires
                0 <= ry <= 4,
        ;
        if lit(g[ry], cx) {
            lemma_block_within(x0 + cx * scale, y0 + ry * scale, scale, scale);
            lemma_within_grow(
                blk,
                x0 + cx * scale,
                y0 + ry * scale,
                scale as int,
                scale as int,
                x0,
                y0,
                3 * (scale as int),
                5 * (scale as int),
            );
        }
        lemma_within_concat(prev, blk, x0, y0, 3 * (scale as int), 5 * (scale as int));
    }
}

/// Drawn text stays inside the box it is measured to occupy: every pixel of
/// the first `n` characters lies within `text_width(n) × scale` columns and
/// `GLYPH_H × scale` rows from the text's top-left corner.
pub proof fn lemma_text_within_width(text: Seq<char>, ox: int, oy: int, scale: nat, n: nat)
    requires
        n <= text.len(),
    ensures
        within_box(
            text_pixels(text, ox, oy, scale, n),
            ox,
            oy,
            text_width_model(n) * (scale as int),
            5 * (scale as int),
        ),
    decreases n,
{
    if n > 0 {
        let i = n - 1;
        lemma_text_within_width(text, ox, oy, scale, (n - 1) as nat);
        let prev = text_pixels(text, ox, oy, scale, (n - 1) as nat);
        let w = text_width_model(n) * (scale as int);
        assert(text_width_model((n - 1) as nat) * scale <= text_width_model(n) * scale) by (nonlinear_arith)
            requires
                text_width_model((n - 1) as nat) <= text_width_model(n),
        ;
        lemma_within_grow(
            prev,
            ox,
            oy,
            text_width_model((n - 1) as nat) * (scale as int),
            5 * (scale as int),
            ox,
            oy,
            w,
            5 * (scale as int),
        );
        let x0 = ox + i * 4 * scale;
        let cur = match glyph_model(text[i]) {
            Some(g) => glyph_cells(g, x0, oy, scale, 15),
            None => Seq::empty(),
        };
        assert(i * 4 * scale >= 0 && i * 4 * scale + 3 * scale == (4 * n - 1) * scale) by (nonlinear_arith)
            requires
                i == n - 1,
                n > 0,
        ;
        match glyph_model(text[i]) {
            Some(g) => {
                lemma_cells_within(g, x0, oy, scale, 15);
                lemma_within_grow(cur, x0, oy, 3 * (scale as int), 5 * (scale as int), ox, oy, w, 5 * (scale as int));
            },
            None => {},
        }
        lemma_within_concat(prev, cur, ox, oy, w, 5 * (scale as int));
    }
}

/// The glyph has a lit pixel (every supported character but the space does).
pub open spec fn visible(c: char) -> bool {
    glyph_model(c) is Some && lower_char(c) != ' '
}

/// The arithmetic of drawing `text` stays within `u32`.
pub open spec fn draw_fits(text: Seq<char>, ox: u32, oy: u32, scale: u32) -> bool {
    &&& ox + text.len() * 4 * scale <= u32::MAX
    &&& (exists|i: int| 0 <= i < text.len() && visible(#[trigger] text[i])) ==> oy + 5 * scale
        <= u32::MAX + 1
}

pub open spec fn as_int_pixels(v: Seq<(u32, u32)>) -> Seq<(int, int)> {
    v.map_values(|p: (u32, u32)| (p.0 as int, p.1 as int))
}

proof fn lemma_push_pixel(v: Seq<(u32, u32)>, p: (u32, u32))
    ensures
        as_int_pixels(v.push(p)) == as_int_pixels(v).push((p.0 as int, p.1 as int)),
{
    assert(as_int_pixels(v.push(p)) =~= as_int_pixels(v).push((p.0 as int, p.1 as int)));
}

/// Every supported glyph except the space has a lit cell in its bottom row.
proof fn lemma_bottom_row(c: char)
    requires
        glyph_model(c) is Some,
    ensures
        glyph_model(c).unwrap().len() == 5,
        !visible(c) ==> forall|ry: int, cx: int|
            0 <= ry < 5 && 0 <= cx < 3 ==> !#[trigger] lit(glyph_model(c).unwrap()[ry], cx),
{
    let g = glyph_model(c).unwrap();
    if !visible(c) {
        assert(g == seq![0u8, 0, 0, 0, 0]);
        assert forall|ry: int, cx: int| 0 <= ry < 5 && 0 <= cx < 3 implies !#[trigger] lit(g[ry], cx) by {
            assert(g[ry] == 0u8);
            let sh: u8 = (2 - cx) as u8;
            assert(((0u8 >> sh) & 1u8) == 0u8) by (bit_vector);
        }
    }
}

/// Append one `scale × scale` block at `(x0, y0)` to `out`.
fn push_block(out: &mut Vec<(u32, u32)>, x0: u32, y0: u32, scale: u32)
    requires
        x0 + scale <= u32::MAX + 1,
        y0 + scale <= u32::MAX + 1,
    ensures
        as_int_pixels(final(out)@) == as_int_pixels(old(out)@) + pixel_block(
            x0 as int,
            y0 as int,
            scale as nat,
            scale as nat,
        ),
{
    let mut sy: u32 = 0;
    while sy < scale
        invariant
            sy <= scale,
            x0 + scale <= u32::MAX + 1,
            y0 + scale <= u32::MAX + 1,
            as_int_pixels(out@) == as_int_pixels(old(out)@) + pixel_block(
                x0 as int,
                y0 as int,
                scale as nat,
                sy as nat,
            ),
        decreases scale - sy,
    {
        let ghost before = as_int_pixels(out@);
        let mut sx: u32 = 0;
        while sx < scale
            invariant
                sx <= scale,
                sy < scale,
                x0 + scale <= u32::MAX + 1,
                y0 + scale <= u32::MAX + 1,
                as_int_pixels(out@) == before + pixel_row(x0 as int, y0 + sy, sx as nat),
            decreases scale - sx,
        {
            let ghost prev = out@;
            let p: (u32, u32) = (x0 + sx, y0 + sy);
            out.push(p);
            proof {
                lemma_push_pixel(prev, p);
            }
            sx = sx + 1;
            assert(as_int_pixels(out@) =~= before + pixel_row(x0 as int, y0 + sy, sx as nat));
        }
        sy = sy + 1;
        assert(as_int_pixels(out@) =~= as_int_pixels(old(out)@) + pixel_block(
            x0 as int,
            y0 as int,
            scale as nat,
            sy as nat,
        ));
    }
}

/// Append the pixels of glyph `g` with its top-left at `(x0, y0)`.
fn push_glyph(out: &mut Vec<(u32, u32)>, g: &[u8; 5], x0: u32, y0: u32, scale: u32)
    requires
        x0 + 4 * scale <= u32::MAX,
        (exists|ry: int, cx: int| 0 <= ry < 5 && 0 <= cx < 3 && #[trigger] lit(g@[ry], cx))
            ==> y0 + 5 * scale <= u32::MAX + 1,
    ensures
        as_int_pixels(final(out)@) == as_int_pixels(old(out)@) + glyph_cells(
            g@,
            x0 as int,
            y0 as int,
            scale as nat,
            15,
        ),
{
    let mut k: u32 = 0;
    while k < 15
        invariant
            k <= 15,
            x0 + 4 * scale <= u32::MAX,
            (exists|ry: int, cx: int| 0 <= ry < 5 && 0 <= cx < 3 && #[trigger] lit(g@[ry], cx))
                ==> y0 + 5 * scale <= u32::MAX + 1,
            as_int_pixels(out@) == as_int_pixels(old(out)@) + glyph_cells(
                g@,
                x0 as int,
                y0 as int,
                scale as nat,
                k as nat,
            ),
        decreases 15 - k,
    {
        let ry = k / 3;
        let cx = k % 3;
        let row = g[ry as usize];
        let bit = (row >> ((GLYPH_W - 1 - cx) as u8)) & 1;
        let ghost before = as_int_pixels(out@);
        if bit == 1 {
            assert(lit(g@[ry as int], cx as int));
            assert(y0 + 5 * scale <= u32::MAX + 1);
            assert(cx * scale <= 2 * scale) by (nonlinear_arith)
                requires
                    cx <= 2,
            ;
            assert(ry * scale <= 4 * scale) by (nonlinear_arith)
                requires
                    ry <= 4,
            ;
            push_block(out, x0 + cx * scale, y0 + ry * scale, scale);
        }
        k = k + 1;
        assert(as_int_pixels(out@) =~= as_int_pixels(old(out)@) + glyph_cells(
            g@,
            x0 as int,
            y0 as int,
            scale as nat,
            k as nat,
        ));
    }
}

/// The pixels lit by `text` rendered at `scale`, with the top-left of the
/// text at `(ox, oy)`, in drawing order (each `scale × scale` block row by
/// row). Unsupported characters render blank but still advance.
pub fn draw_text(text: &str, ox: u32, oy: u32, scale: u32) -> (r: Vec<(u32, u32)>)
    requires
        draw_fits(text@, ox, oy, scale),
    ensures
        as_int_pixels(r@) == text_pixels(
            text@,
            ox as int,
            oy as int,
            scale as nat,
            text@.len(),
        ),
{
    let cs = chars_of(text);
    let mut out: Vec<(u32, u32)> = Vec::new();
    let mut cursor = ox;
    let mut i: usize = 0;
    assert(as_int_pixels(out@) =~= Seq::<(int, int)>::empty());
    while i < cs.len()
        invariant
            cs@ == text@,
            i <= cs@.len(),
            draw_fits(text@, ox, oy, scale),
            cursor == ox + i * 4 * scale,
            as_int_pixels(out@) == text_pixels(text@, ox as int, oy as int, scale as nat, i as nat),
        decreases cs@.len() - i,
    {
        proof {
            assert(ox + (i + 1) * 4 * scale <= ox + text@.len() * 4 * scale) by (nonlinear_arith)
                requires
                    i + 1 <= text@.len(),
            ;
            assert((i + 1) * 4 * scale == i * 4 * scale + 4 * scale) by (nonlinear_arith);
        }
        let c = cs[i];
        match glyph(c) {
            Some(rows) => {
                proof {
                    lemma_bottom_row(c);
                    if exists|ry: int, cx: int|
                        0 <= ry < 5 && 0 <= cx < 3 && #[trigger] lit(rows@[ry], cx) {
                        assert(visible(text@[i as int]));
                    }
                }
                push_glyph(&mut out, &rows, cursor, oy, scale);
            },
            None => {},
        }
        cursor = cursor + (GLYPH_W + GLYPH_GAP) * scale;
        i = i + 1;
        assert(as_int_pixels(out@) =~= text_pixels(
            text@,
            ox as int,
            oy as int,
            scale as nat,
            i as nat,
        ));
    }
    out
}

} // verus!
