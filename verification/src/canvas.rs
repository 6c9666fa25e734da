//! RGBA pictures held in memory: the tiles that the renderer hands back, the
//! 2×2 multi-view grid assembled from them, its separator lines and its labels.
use vstd::prelude::*;
use vstd::string::StrSliceExecFns;

verus! {

/// An RGBA image, held as rows of pixels from the top down.
#[derive(Clone, Debug)]
pub struct RgbaCanvas {
    pub width: u32,
    pub height: u32,
    pub rows: Vec<Vec<[u8; 4]>>,
}

impl View for RgbaCanvas {
    /// The pixels, row by row.
    type V = Seq<Seq<[u8; 4]>>;

    open spec fn view(&self) -> Seq<Seq<[u8; 4]>> {
        self.rows@.map_values(|r: Vec<[u8; 4]>| r@)
    }
}

/// `pixels` has `height` rows of `width` pixels each.
pub open spec fn has_size(pixels: Seq<Seq<[u8; 4]>>, width: int, height: int) -> bool {
    &&& pixels.len() == height
    &&& forall|y: int| 0 <= y < height ==> #[trigger] pixels[y].len() == width
}

/// A fully transparent black pixel.
pub open spec fn transparent() -> [u8; 4] {
    [0u8, 0u8, 0u8, 0u8]
}

/// A row of `width` transparent black pixels.
fn transparent_row(width: u32) -> (row: Vec<[u8; 4]>)
    ensures
        row@.len() == width,
        forall|i: int| 0 <= i < width ==> #[trigger] row@[i] == transparent(),
{
    let mut row: Vec<[u8; 4]> = Vec::new();
    let mut x: u32 = 0;
    while x < width
        invariant
            x <= width,
            row@.len() == x,
            forall|i: int| 0 <= i < x ==> #[trigger] row@[i] == transparent(),
        decreases width - x,
    {
        row.push([0u8, 0u8, 0u8, 0u8]);
        x = x + 1;
    }
    row
}

impl RgbaCanvas {
    /// The rows hold `height` rows of `width` pixels.
    pub open spec fn wf(&self) -> bool {
        has_size(self@, self.width as int, self.height as int)
    }

    /// A `width` × `height` canvas of transparent black pixels.
    pub fn new(width: u32, height: u32) -> (c: RgbaCanvas)
        ensures
            c.wf(),
            c.width == width,
            c.height == height,
            forall|x: int, y: int| 0 <= x < width && 0 <= y < height ==> #[trigger] c@[y][x] == transparent(),
    {
        let mut rows: Vec<Vec<[u8; 4]>> = Vec::new();
        let mut y: u32 = 0;
        while y < height
            invariant
                y <= height,
                rows@.len() == y,
                forall|j: int| 0 <= j < y ==> #[trigger] rows@[j]@.len() == width,
                forall|i: int, j: int| 0 <= j < y && 0 <= i < width ==> #[trigger] rows@[j]@[i] == transparent(),
            decreases height - y,
        {
            rows.push(transparent_row(width));
            y = y + 1;
        }
        let c = RgbaCanvas { width, height, rows };
        assert forall|j: int| 0 <= j < height implies #[trigger] c@[j].len() == width by {
            assert(c@[j] == c.rows@[j]@);
        }
        assert forall|x: int, y: int| 0 <= x < width && 0 <= y < height implies #[trigger] c@[y][x] == transparent() by {
            assert(c@[y] == c.rows@[y]@);
        }
        c
    }

    /// The pixel at column `x` of row `y`.
    pub fn get_pixel(&self, x: u32, y: u32) -> (p: [u8; 4])
        requires
            self.wf(),
            x < self.width,
            y < self.height,
        ensures
            p == self@[y as int][x as int],
    {
        assert(self@[y as int] == self.rows@[y as int]@);
        self.rows[y as usize][x as usize]
    }

    /// Sets the pixel at column `x` of row `y` to `p`; every other pixel stays.
    pub fn put_pixel(&mut self, x: u32, y: u32, p: [u8; 4])
        requires
            old(self).wf(),
            x < old(self).width,
            y < old(self).height,
        ensures
            final(self).wf(),
            final(self).width == old(self).width,
            final(self).height == old(self).height,
            final(self)@ == old(self)@.update(y as int, old(self)@[y as int].update(x as int, p)),
    {
        let ghost before = self@;
        let mut row: Vec<[u8; 4]> = Vec::new();
        self.rows.set_and_swap(y as usize, &mut row);
        assert(row@ == before[y as int]);
        row.set(x as usize, p);
        self.rows.set_and_swap(y as usize, &mut row);
        let ghost want = before.update(y as int, before[y as int].update(x as int, p));
        assert forall|j: int| 0 <= j < self@.len() implies #[trigger] self@[j] == want[j] by {
            if j != y {
                assert(self@[j] == before[j]);
            }
        }
        assert(self@ =~= want);
    }
}

/// The colour of the lines between the tiles of the multi-view grid.
pub open spec fn separator_color() -> [u8; 4] {
    [180u8, 180u8, 180u8, 255u8]
}

/// Whether pixel (`x`, `y`) lies on the 2-pixel separator lines that start at
/// column `tile_w` and at row `tile_h`.
pub open spec fn on_separator(tile_w: u32, tile_h: u32, x: int, y: int) -> bool {
    (tile_w <= x < tile_w + 2) || (tile_h <= y < tile_h + 2)
}

/// Draws 2-pixel gray separator lines at the tile boundaries of a 2×2 grid:
/// columns `tile_w` and `tile_w + 1`, rows `tile_h` and `tile_h + 1`, as far as
/// they lie on the image. Every other pixel stays.
pub fn draw_separator_lines(img: &mut RgbaCanvas, tile_w: u32, tile_h: u32)
    requires
        old(img).wf(),
    ensures
        final(img).wf(),
        final(img).width == old(img).width,
        final(img).height == old(img).height,
        forall|x: int, y: int|
            0 <= x < old(img).width && 0 <= y < old(img).height ==> #[trigger] final(img)@[y][x] == if on_separator(
                tile_w,
                tile_h,
                x,
                y,
            ) {
                separator_color()
            } else {
                old(img)@[y][x]
            },
{
    let ghost start = img@;
    let color = [180u8, 180u8, 180u8, 255u8];
    let w = img.width;
    let h = img.height;
    let mut dx: u32 = 0;
    while dx < 2
        invariant
            dx <= 2,
            img.wf(),
            img.width == w,
            img.height == h,
            w == old(img).width,
            h == old(img).height,
            start == old(img)@,
            color == separator_color(),
            forall|i: int, j: int|
                0 <= i < w && 0 <= j < h ==> #[trigger] img@[j][i] == if tile_w <= i < tile_w + dx {
                    color
                } else {
                    start[j][i]
                },
        decreases 2 - dx,
    {
        if dx < w && tile_w < w - dx {
            let x = tile_w + dx;
            let mut y: u32 = 0;
            while y < h
                invariant
                    dx < 2,
                    x == tile_w + dx,
                    x < w,
                    y <= h,
                    img.wf(),
                    img.width == w,
                    img.height == h,
                    forall|i: int, j: int|
                        0 <= i < w && 0 <= j < h ==> #[trigger] img@[j][i] == if (tile_w <= i < tile_w + dx) || (i == x
                            && j < y) {
                            color
                        } else {
                            start[j][i]
                        },
                decreases h - y,
            {
                let ghost before = img@;
                img.put_pixel(x, y, color);
                assert forall|i: int, j: int| 0 <= i < w && 0 <= j < h implies #[trigger] img@[j][i] == if (
                tile_w <= i < tile_w + dx) || (i == x && j < y + 1) {
                    color
                } else {
                    start[j][i]
                } by {
                    if j == y {
                        assert(img@[j] == before[j].update(x as int, color));
                    } else {
                        assert(img@[j] == before[j]);
                    }
                }
                y = y + 1;
            }
        }
        dx = dx + 1;
    }
    let mut dy: u32 = 0;
    while dy < 2
        invariant
            dy <= 2,
            img.wf(),
            img.width == w,
            img.height == h,
            w == old(img).width,
            h == old(img).height,
            start == old(img)@,
            color == separator_color(),
            forall|i: int, j: int|
                0 <= i < w && 0 <= j < h ==> #[trigger] img@[j][i] == if (tile_w <= i < tile_w + 2) || (tile_h <= j
                    < tile_h + dy) {
                    color
                } else {
                    start[j][i]
                },
        decreases 2 - dy,
    {
        if dy < h && tile_h < h - dy {
            let y = tile_h + dy;
            let mut x: u32 = 0;
            while x < w
                invariant
                    dy < 2,
                    y == tile_h + dy,
                    y < h,
                    x <= w,
                    img.wf(),
                    img.width == w,
                    img.height == h,
                    forall|i: int, j: int|
                        0 <= i < w && 0 <= j < h ==> #[trigger] img@[j][i] == if (tile_w <= i < tile_w + 2) || (tile_h
                            <= j < tile_h + dy) || (j == y && i < x) {
                            color
                        } else {
                            start[j][i]
                        },
                decreases w - x,
            {
                let ghost before = img@;
                img.put_pixel(x, y, color);
                assert forall|i: int, j: int| 0 <= i < w && 0 <= j < h implies #[trigger] img@[j][i] == if (
                tile_w <= i < tile_w + 2) || (tile_h <= j < tile_h + dy) || (j == y && i < x + 1) {
                    color
                } else {
                    start[j][i]
                } by {
                    if j == y {
                        assert(img@[j] == before[j].update(x as int, color));
                    } else {
                        assert(img@[j] == before[j]);
                    }
                }
                x = x + 1;
            }
        }
        dy = dy + 1;
    }
}

/// The 8×8 bitmap that font8x8's basic font has for a character: one byte per
/// row from the top, bit `c` set where column `c` is lit.
pub uninterp spec fn basic_glyph_of(ch: char) -> Option<[u8; 8]>;

/// font8x8's `BASIC_FONTS.get`: the bitmap of a character of the basic Latin
/// block (U+0000 to U+007F) and `None` for every other character (the font's
/// table holds exactly those 128 characters, sorted). The bitmaps themselves are
/// named by `basic_glyph_of`.
#[verifier::external_body]
fn basic_glyph(ch: char) -> (g: Option<[u8; 8]>)
    ensures
        g == basic_glyph_of(ch),
        g is Some <==> (ch as u32) < 128,
{
    font8x8::UnicodeFonts::get(&font8x8::BASIC_FONTS, ch)
}

/// The glyphs of the characters of a text.
pub open spec fn text_glyphs(text: Seq<char>) -> Seq<Option<[u8; 8]>> {
    text.map_values(|c: char| basic_glyph_of(c))
}

/// Whether column `col` of a glyph row is lit.
pub open spec fn glyph_bit(bits: u8, col: u8) -> bool {
    bits & (1u8 << col) != 0
}

/// Whether pixel (`x`, `y`) is lit by the text whose glyphs are `glyphs`, drawn
/// with its top-left corner at (`left`, `top`) and every glyph scaled 2×, so
/// that each character is 16 pixels wide and 16 high.
pub open spec fn text_lit(glyphs: Seq<Option<[u8; 8]>>, left: int, top: int, x: int, y: int) -> bool {
    let dx = x - left;
    let dy = y - top;
    &&& 0 <= dx < 16 * glyphs.len()
    &&& 0 <= dy < 16
    &&& match glyphs[dx / 16] {
        Some(g) => glyph_bit(g[dy / 2], ((dx % 16) / 2) as u8),
        None => false,
    }
}

/// A pixel darkened behind a label: colour channels scaled to 35% (rounded
/// down), opacity raised to at least 200.
pub open spec fn darken(p: [u8; 4]) -> [u8; 4] {
    [
        (p[0] * 35 / 100) as u8,
        (p[1] * 35 / 100) as u8,
        (p[2] * 35 / 100) as u8,
        if p[3] < 200 { 200u8 } else { p[3] },
    ]
}

/// The first column of a label `len` characters long, centred in the tile that
/// starts at column `tile_x` and is `tile_w` wide (at the tile's left edge when
/// the text is wider than the tile).
pub open spec fn label_left(tile_x: u32, tile_w: u32, len: nat) -> int {
    tile_x + (if tile_w >= 16 * len { tile_w - 16 * len } else { 0 }) / 2
}

/// Pixel (`x`, `y`), whose colour was `p`, after a label with glyphs `glyphs` is
/// drawn on the tile at (`tile_x`, `tile_y`) of width `tile_w`: white where the
/// text is lit, darkened inside the 22-pixel bar along the top of the tile, and
/// unchanged elsewhere.
pub open spec fn labelled(
    p: [u8; 4],
    glyphs: Seq<Option<[u8; 8]>>,
    tile_x: u32,
    tile_y: u32,
    tile_w: u32,
    x: int,
    y: int,
) -> [u8; 4] {
    if text_lit(glyphs, label_left(tile_x, tile_w, glyphs.len()), tile_y + 3, x, y) {
        [255u8, 255u8, 255u8, 255u8]
    } else if tile_x <= x < tile_x + tile_w && tile_y <= y < tile_y + 22 {
        darken(p)
    } else {
        p
    }
}

/// The glyph of each character of `text`.
fn glyphs_of(text: &str) -> (g: Vec<Option<[u8; 8]>>)
    ensures
        g@ == text_glyphs(text@),
{
    let n = text.unicode_len();
    let mut g: Vec<Option<[u8; 8]>> = Vec::new();
    let mut i: usize = 0;
    while i < n
        invariant
            n == text@.len(),
            i <= n,
            g@ == text_glyphs(text@.take(i as int)),
        decreases n - i,
    {
        g.push(basic_glyph(text.get_char(i)));
        assert(text@.take(i + 1) =~= text@.take(i as int).push(text@[i as int]));
        assert(g@ =~= text_glyphs(text@.take(i + 1)));
        i = i + 1;
    }
    assert(text@.take(n as int) =~= text@);
    g
}

/// The new colour of pixel (`x`, `y`) of colour `p` under a label (see `labelled`).
fn label_pixel(
    p: [u8; 4],
    glyphs: &Vec<Option<[u8; 8]>>,
    left: u32,
    top: u32,
    tile_x: u32,
    tile_y: u32,
    tile_w: u32,
    x: u32,
    y: u32,
) -> (q: [u8; 4])
    requires
        left == label_left(tile_x, tile_w, glyphs@.len()),
        top == tile_y + 3,
        16 * glyphs@.len() <= u32::MAX,
    ensures
        q == labelled(p, glyphs@, tile_x, tile_y, tile_w, x as int, y as int),
{
    let mut lit = false;
    if x >= left && y >= top {
        let dx = x - left;
        let dy = y - top;
        if dx / 16 < glyphs.len() as u32 && dy < 16 {
            assert(dx < 16 * glyphs@.len()) by (nonlinear_arith)
                requires dx / 16 < glyphs@.len();
            match glyphs[(dx / 16) as usize] {
                Some(g) => {
                    let bits = g[(dy / 2) as usize];
                    let col = ((dx % 16) / 2) as u8;
                    lit = bits & (1u8 << col) != 0;
                },
                None => {},
            }
        } else if dx / 16 >= glyphs.len() as u32 {
            assert(!(0 <= dx < 16 * glyphs@.len())) by (nonlinear_arith)
                requires dx / 16 >= glyphs@.len();
        }
    }
    if lit {
        [255u8, 255u8, 255u8, 255u8]
    } else if x >= tile_x && x - tile_x < tile_w && y >= tile_y && y - tile_y < 22 {
        let r = (p[0] as u32 * 35 / 100) as u8;
        let g = (p[1] as u32 * 35 / 100) as u8;
        let b = (p[2] as u32 * 35 / 100) as u8;
        let a = if p[3] < 200 { 200u8 } else { p[3] };
        let q = [r, g, b, a];
        assert(q =~= darken(p));
        q
    } else {
        p
    }
}

/// Draws a centred view-name label at the top of a grid tile: the 22-pixel bar
/// along the top of the tile is darkened for contrast, and the text is drawn in
/// white in font8x8's basic 8×8 font scaled 2×, 3 pixels below the tile's top.
/// Characters outside the basic Latin block are left blank; nothing is drawn
/// off the image.
pub fn draw_tile_label(img: &mut RgbaCanvas, text: &str, tile_x: u32, tile_y: u32, tile_w: u32)
    requires
        old(img).wf(),
        tile_x + tile_w + 16 * text@.len() <= u32::MAX,
        tile_y + 22 <= u32::MAX,
    ensures
        final(img).wf(),
        final(img).width == old(img).width,
        final(img).height == old(img).height,
        forall|x: int, y: int|
            0 <= x < old(img).width && 0 <= y < old(img).height ==> #[trigger] final(img)@[y][x] == labelled(
                old(img)@[y][x],
                text_glyphs(text@),
                tile_x,
                tile_y,
                tile_w,
                x,
                y,
            ),
{
    let ghost start = img@;
    let glyphs = glyphs_of(text);
    let n = glyphs.len() as u32;
    let text_w = 16 * n;
    let left = tile_x + (if tile_w >= text_w { tile_w - text_w } else { 0 }) / 2;
    let top = tile_y + 3;
    let w = img.width;
    let h = img.height;
    let bottom = if tile_y + 22 < h { tile_y + 22 } else { h };
    let mut y: u32 = tile_y;
    while y < bottom
        invariant
            tile_y <= y,
            y <= bottom || bottom < tile_y,
            bottom <= h,
            bottom <= tile_y + 22,
            bottom == h || bottom == tile_y + 22,
            img.wf(),
            img.width == w,
            img.height == h,
            w == old(img).width,
            h == old(img).height,
            start == old(img)@,
            glyphs@ == text_glyphs(text@),
            left == label_left(tile_x, tile_w, glyphs@.len()),
            top == tile_y + 3,
            16 * glyphs@.len() <= u32::MAX,
            forall|i: int, j: int|
                0 <= i < w && 0 <= j < h ==> #[trigger] img@[j][i] == if tile_y <= j < y {
                    labelled(start[j][i], glyphs@, tile_x, tile_y, tile_w, i, j)
                } else {
                    start[j][i]
                },
        decreases bottom - y,
    {
        let mut x: u32 = 0;
        while x < w
            invariant
                tile_y <= y < bottom,
                bottom <= h,
                x <= w,
                img.wf(),
                img.width == w,
                img.height == h,
                left == label_left(tile_x, tile_w, glyphs@.len()),
                top == tile_y + 3,
                16 * glyphs@.len() <= u32::MAX,
                forall|i: int, j: int|
                    0 <= i < w && 0 <= j < h ==> #[trigger] img@[j][i] == if (tile_y <= j < y) || (j == y && i < x) {
                        labelled(start[j][i], glyphs@, tile_x, tile_y, tile_w, i, j)
                    } else {
                        start[j][i]
                    },
            decreases w - x,
        {
            let ghost before = img@;
            let p = img.get_pixel(x, y);
            let q = label_pixel(p, &glyphs, left, top, tile_x, tile_y, tile_w, x, y);
            img.put_pixel(x, y, q);
            assert forall|i: int, j: int| 0 <= i < w && 0 <= j < h implies #[trigger] img@[j][i] == if (tile_y <= j
                < y) || (j == y && i < x + 1) {
                labelled(start[j][i], glyphs@, tile_x, tile_y, tile_w, i, j)
            } else {
                start[j][i]
            } by {
                if j == y {
                    assert(img@[j] == before[j].update(x as int, q));
                } else {
                    assert(img@[j] == before[j]);
                }
            }
            x = x + 1;
        }
        y = y + 1;
    }
    assert forall|x: int, y: int| 0 <= x < w && 0 <= y < h implies #[trigger] img@[y][x] == labelled(
        start[y][x],
        glyphs@,
        tile_x,
        tile_y,
        tile_w,
        x,
        y,
    ) by {
        if !(tile_y <= y < bottom) {
            assert(!text_lit(glyphs@, left as int, top as int, x, y));
        }
    }
}

/// Pixel (`x`, `y`), whose colour was `p`, after the image `top` (`top_w` ×
/// `top_h`) is copied onto the picture with its top-left corner at (`ox`, `oy`).
pub open spec fn replaced(
    p: [u8; 4],
    top: Seq<Seq<[u8; 4]>>,
    top_w: u32,
    top_h: u32,
    ox: u32,
    oy: u32,
    x: int,
    y: int,
) -> [u8; 4] {
    if ox <= x < ox + top_w && oy <= y < oy + top_h {
        top[y - oy][x - ox]
    } else {
        p
    }
}

/// Copies `top` onto `bottom` with its top-left corner at (`ox`, `oy`), as far
/// as it lies on `bottom`; the rest of `bottom` stays.
pub fn replace(bottom: &mut RgbaCanvas, top: &RgbaCanvas, ox: u32, oy: u32)
    requires
        old(bottom).wf(),
        top.wf(),
    ensures
        final(bottom).wf(),
        final(bottom).width == old(bottom).width,
        final(bottom).height == old(bottom).height,
        forall|x: int, y: int|
            0 <= x < old(bottom).width && 0 <= y < old(bottom).height ==> #[trigger] final(bottom)@[y][x] == replaced(
                old(bottom)@[y][x],
                top@,
                top.width,
                top.height,
                ox,
                oy,
                x,
                y,
            ),
{
    let ghost start = bottom@;
    let w = bottom.width;
    let h = bottom.height;
    if ox >= w || oy >= h {
        return;
    }
    let end_x = if top.width < w - ox { ox + top.width } else { w };
    let end_y = if top.height < h - oy { oy + top.height } else { h };
    let mut y: u32 = oy;
    while y < end_y
        invariant
            oy <= y <= end_y,
            end_y <= h,
            end_y == h || end_y == oy + top.height,
            ox < end_x || ox == end_x,
            end_x <= w,
            end_x == w || end_x == ox + top.width,
            end_x <= ox + top.width,
            end_y <= oy + top.height,
            ox <= end_x,
            bottom.wf(),
            top.wf(),
            bottom.width == w,
            bottom.height == h,
            w == old(bottom).width,
            h == old(bottom).height,
            start == old(bottom)@,
            forall|i: int, j: int|
                0 <= i < w && 0 <= j < h ==> #[trigger] bottom@[j][i] == if ox <= i < end_x && oy <= j < y {
                    top@[j - oy][i - ox]
                } else {
                    start[j][i]
                },
        decreases end_y - y,
    {
        let mut x: u32 = ox;
        while x < end_x
            invariant
                oy <= y < end_y,
                end_y <= h,
                end_y == h || end_y == oy + top.height,
                ox <= x <= end_x,
                end_x <= w,
                end_x == w || end_x == ox + top.width,
                end_x <= ox + top.width,
                end_y <= oy + top.height,
                bottom.wf(),
                top.wf(),
                bottom.width == w,
                bottom.height == h,
                forall|i: int, j: int|
                    0 <= i < w && 0 <= j < h ==> #[trigger] bottom@[j][i] == if (ox <= i < end_x && oy <= j < y) || (j
                        == y && ox <= i < x) {
                        top@[j - oy][i - ox]
                    } else {
                        start[j][i]
                    },
            decreases end_x - x,
        {
            let ghost before = bottom@;
            let p = top.get_pixel(x - ox, y - oy);
            bottom.put_pixel(x, y, p);
            assert forall|i: int, j: int| 0 <= i < w && 0 <= j < h implies #[trigger] bottom@[j][i] == if (ox <= i
                < end_x && oy <= j < y) || (j == y && ox <= i < x + 1) {
                top@[j - oy][i - ox]
            } else {
                start[j][i]
            } by {
                if j == y {
                    assert(bottom@[j] == before[j].update(x as int, p));
                } else {
                    assert(bottom@[j] == before[j]);
                }
            }
            x = x + 1;
        }
        y = y + 1;
    }
}

/// wgpu's `COPY_BYTES_PER_ROW_ALIGNMENT`: when a texture is copied into a
/// buffer, each row starts at a multiple of this many bytes (256 in the
/// wgpu-types source).
#[verifier::external_body]
fn copy_row_alignment() -> (a: u32)
    ensures
        a == 256,
{
    wgpu::COPY_BYTES_PER_ROW_ALIGNMENT
}

/// The bytes per row of a `width`-pixel RGBA image copied out of a texture: the
/// 4 bytes per pixel rounded up to wgpu's row alignment of 256.
pub fn padded_bytes_per_row(width: u32) -> (r: u32)
    requires
        4 * width + 255 <= u32::MAX,
    ensures
        r == (4 * width + 255) / 256 * 256,
        r % 256 == 0,
        4 * width <= r < 4 * width + 256,
{
    let align = copy_row_alignment();
    let unpadded = width * 4;
    let r = (unpadded + (align - 1)) / align * align;
    assert(r % 256 == 0 && 4 * width <= r < 4 * width + 256) by (nonlinear_arith)
        requires r == (4 * width + 255) / 256 * 256;
    r
}

/// The pixel at column `x` of row `y` of an image stored as rows of
/// `bytes_per_row` bytes, 4 bytes per pixel.
pub open spec fn padded_pixel(bytes: Seq<u8>, bytes_per_row: int, x: int, y: int) -> [u8; 4] {
    let k = y * bytes_per_row + 4 * x;
    [bytes[k], bytes[k + 1], bytes[k + 2], bytes[k + 3]]
}

impl RgbaCanvas {
    /// A `width` × `height` image from bytes that hold it row by row, each row
    /// starting `bytes_per_row` bytes after the previous one and holding 4 bytes
    /// (red, green, blue, alpha) per pixel; bytes past a row's pixels are skipped.
    pub fn from_padded_bytes(bytes: &Vec<u8>, width: u32, height: u32, bytes_per_row: u32) -> (c: RgbaCanvas)
        requires
            4 * width <= bytes_per_row,
            bytes_per_row * height <= bytes@.len(),
        ensures
            c.wf(),
            c.width == width,
            c.height == height,
            forall|x: int, y: int|
                0 <= x < width && 0 <= y < height ==> #[trigger] c@[y][x] == padded_pixel(
                    bytes@,
                    bytes_per_row as int,
                    x,
                    y,
                ),
    {
        let len = bytes.len();
        let mut rows: Vec<Vec<[u8; 4]>> = Vec::new();
        let mut start: usize = 0;
        let mut y: u32 = 0;
        while y < height
            invariant
                y <= height,
                start == y * bytes_per_row,
                4 * width <= bytes_per_row,
                bytes_per_row * height <= bytes@.len(),
                len == bytes@.len(),
                rows@.len() == y,
                forall|j: int| 0 <= j < y ==> #[trigger] rows@[j]@.len() == width,
                forall|i: int, j: int|
                    0 <= j < y && 0 <= i < width ==> #[trigger] rows@[j]@[i] == padded_pixel(
                        bytes@,
                        bytes_per_row as int,
                        i,
                        j,
                    ),
            decreases height - y,
        {
            assert(start + bytes_per_row <= bytes_per_row * height) by (nonlinear_arith)
                requires
                    start == y * bytes_per_row,
                    y < height,
            ;
            let mut row: Vec<[u8; 4]> = Vec::new();
            let mut x: u32 = 0;
            let mut k: usize = start;
            while x < width
                invariant
                    x <= width,
                    k == start + 4 * x,
                    start == y * bytes_per_row,
                    start + bytes_per_row <= bytes@.len(),
                    len == bytes@.len(),
                    4 * width <= bytes_per_row,
                    row@.len() == x,
                    forall|i: int| 0 <= i < x ==> #[trigger] row@[i] == padded_pixel(bytes@, bytes_per_row as int, i, y as int),
                decreases width - x,
            {
                let p = [bytes[k], bytes[k + 1], bytes[k + 2], bytes[k + 3]];
                assert(p =~= padded_pixel(bytes@, bytes_per_row as int, x as int, y as int));
                row.push(p);
                x = x + 1;
                k = k + 4;
            }
            rows.push(row);
            assert(start + bytes_per_row == (y + 1) * bytes_per_row) by (nonlinear_arith)
                requires start == y * bytes_per_row;
            start = start + bytes_per_row as usize;
            y = y + 1;
        }
        let c = RgbaCanvas { width, height, rows };
        assert forall|j: int| 0 <= j < height implies #[trigger] c@[j].len() == width by {
            assert(c@[j] == c.rows@[j]@);
        }
        assert forall|x: int, y: int| 0 <= x < width && 0 <= y < height implies #[trigger] c@[y][x] == padded_pixel(
            bytes@,
            bytes_per_row as int,
            x,
            y,
        ) by {
            assert(c@[y] == c.rows@[y]@);
        }
        c
    }
}

/// The name of view `k` of the multi-view grid: the isometric view top left,
/// then front, top and side.
pub open spec fn view_label(k: int) -> Seq<char> {
    if k == 0 {
        seq!['I', 's', 'o', 'm', 'e', 't', 'r', 'i', 'c']
    } else if k == 1 {
        seq!['F', 'r', 'o', 'n', 't']
    } else if k == 2 {
        seq!['T', 'o', 'p']
    } else {
        seq!['S', 'i', 'd', 'e']
    }
}

/// The top-left corner of tile `k` of the 2×2 grid of `tile_w` × `tile_h` tiles:
/// left to right, then top to bottom.
pub open spec fn tile_origin(tile_w: u32, tile_h: u32, k: int) -> (u32, u32) {
    (if k % 2 == 0 { 0 } else { tile_w }, if k < 2 { 0 } else { tile_h })
}

/// Pixel (`x`, `y`) of the four tiles laid out in a 2×2 grid: the pixel of the
/// tile it falls on, transparent black past the grid (where the image has an
/// odd width or height).
pub open spec fn tiled(tiles: Seq<RgbaCanvas>, tile_w: u32, tile_h: u32, x: int, y: int) -> [u8; 4] {
    if x < 2 * tile_w && y < 2 * tile_h {
        let k = (if y < tile_h { 0int } else { 2int }) + (if x < tile_w { 0int } else { 1int });
        let (ox, oy) = tile_origin(tile_w, tile_h, k);
        tiles[k]@[y - oy][x - ox]
    } else {
        transparent()
    }
}

/// Pixel (`x`, `y`) after the four view labels are drawn in order.
pub open spec fn all_labelled(p: [u8; 4], tile_w: u32, tile_h: u32, x: int, y: int) -> [u8; 4] {
    let p0 = labelled(p, text_glyphs(view_label(0)), 0, 0, tile_w, x, y);
    let p1 = labelled(p0, text_glyphs(view_label(1)), tile_w, 0, tile_w, x, y);
    let p2 = labelled(p1, text_glyphs(view_label(2)), 0, tile_h, tile_w, x, y);
    labelled(p2, text_glyphs(view_label(3)), tile_w, tile_h, tile_w, x, y)
}

/// Pixel (`x`, `y`) of the multi-view grid: the tiles, the separator lines over
/// them, and the labels over both when `label` is set.
pub open spec fn grid_pixel(tiles: Seq<RgbaCanvas>, tile_w: u32, tile_h: u32, label: bool, x: int, y: int) -> [u8; 4] {
    let base = if on_separator(tile_w, tile_h, x, y) { separator_color() } else { tiled(tiles, tile_w, tile_h, x, y) };
    if label { all_labelled(base, tile_w, tile_h, x, y) } else { base }
}

/// Assembles the `width` × `height` multi-view image from the four rendered
/// views (isometric, front, top, side), each `width / 2` × `height / 2`: the
/// tiles in a 2×2 grid, separator lines between them, and, when `label` is set,
/// the name of each view at the top of its tile.
pub fn compose_views(width: u32, height: u32, tiles: &Vec<RgbaCanvas>, label: bool) -> (grid: RgbaCanvas)
    requires
        tiles@.len() == 4,
        forall|k: int|
            0 <= k < 4 ==> {
                &&& (#[trigger] tiles@[k]).wf()
                &&& tiles@[k].width == width / 2
                &&& tiles@[k].height == height / 2
            },
        label ==> width + 144 <= u32::MAX && height / 2 + 22 <= u32::MAX,
    ensures
        grid.wf(),
        grid.width == width,
        grid.height == height,
        forall|x: int, y: int|
            0 <= x < width && 0 <= y < height ==> #[trigger] grid@[y][x] == grid_pixel(
                tiles@,
                width / 2,
                height / 2,
                label,
                x,
                y,
            ),
{
    let tile_w = width / 2;
    let tile_h = height / 2;
    let mut grid = RgbaCanvas::new(width, height);
    replace(&mut grid, &tiles[0], 0, 0);
    replace(&mut grid, &tiles[1], tile_w, 0);
    replace(&mut grid, &tiles[2], 0, tile_h);
    replace(&mut grid, &tiles[3], tile_w, tile_h);
    assert forall|x: int, y: int| 0 <= x < width && 0 <= y < height implies #[trigger] grid@[y][x] == tiled(
        tiles@,
        tile_w,
        tile_h,
        x,
        y,
    ) by {
        assert(tile_origin(tile_w, tile_h, 0) == (0u32, 0u32));
        assert(tile_origin(tile_w, tile_h, 1) == (tile_w, 0u32));
        assert(tile_origin(tile_w, tile_h, 2) == (0u32, tile_h));
        assert(tile_origin(tile_w, tile_h, 3) == (tile_w, tile_h));
    }
    draw_separator_lines(&mut grid, tile_w, tile_h);
    if label {
        proof {
            reveal_strlit("Isometric");
            reveal_strlit("Front");
            reveal_strlit("Top");
            reveal_strlit("Side");
            assert("Isometric"@ =~= view_label(0));
            assert("Front"@ =~= view_label(1));
            assert("Top"@ =~= view_label(2));
            assert("Side"@ =~= view_label(3));
        }
        draw_tile_label(&mut grid, "Isometric", 0, 0, tile_w);
        draw_tile_label(&mut grid, "Front", tile_w, 0, tile_w);
        draw_tile_label(&mut grid, "Top", 0, tile_h, tile_w);
        draw_tile_label(&mut grid, "Side", tile_w, tile_h, tile_w);
    }
    grid
}

/// The separator lines of the multi-view grid are gray wherever no label bar
/// lies over them: always without labels, and outside the top 22 rows of each
/// row of tiles with them.
pub proof fn lemma_grid_separators(tiles: Seq<RgbaCanvas>, tile_w: u32, tile_h: u32, label: bool, x: int, y: int)
    requires
        on_separator(tile_w, tile_h, x, y),
        label ==> !(0 <= y < 22) && !(tile_h <= y < tile_h + 22),
    ensures
        grid_pixel(tiles, tile_w, tile_h, label, x, y) == separator_color(),
{
}

/// Away from the separator lines and the label bars, the multi-view grid shows
/// the pixels of the four views, each in its quarter.
pub proof fn lemma_grid_shows_tiles(tiles: Seq<RgbaCanvas>, tile_w: u32, tile_h: u32, label: bool, k: int, x: int, y: int)
    requires
        0 <= k < 4,
        0 <= x < tile_w,
        0 <= y < tile_h,
        ({
            let (ox, oy) = tile_origin(tile_w, tile_h, k);
            !on_separator(tile_w, tile_h, ox + x, oy + y)
        }),
        label ==> y >= 22,
    ensures
        ({
            let (ox, oy) = tile_origin(tile_w, tile_h, k);
            grid_pixel(tiles, tile_w, tile_h, label, ox + x, oy + y) == tiles[k]@[y][x]
        }),
{
}

} // verus!
