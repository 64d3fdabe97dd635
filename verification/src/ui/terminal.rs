//! Framebuffer text terminal. The terminal keeps its own copy of the
//! framebuffer's pixels (`pitch` pixels per scanline); the caller copies
//! them to video memory.
use vstd::prelude::*;
use vstd::arithmetic::div_mod::{lemma_fundamental_div_mod, lemma_fundamental_div_mod_converse};
use crate::text::{hex16, dec_digits, hex16_digits, decimal_digits};
use crate::device::serial::hex64_text;

verus! {

pub const COLOR_BG: u32 = 0x001E1E2E;
pub const COLOR_FG: u32 = 0x00CDD6F4;
pub const COLOR_PANIC: u32 = 0x00F38BA8;

/// Geometry of the boot framebuffer (32 bits per pixel).
#[derive(Clone, Copy, Debug)]
pub struct FramebufferInfo {
    pub width: u64,
    pub height: u64,
    /// Bytes per scanline.
    pub pitch: u64,
}

/// Fixed layout of a terminal: framebuffer and font geometry.
pub struct Geometry {
    pub width: int,
    pub height: int,
    /// Pixels per scanline.
    pub pitch: int,
    pub cols: int,
    pub rows: int,
    pub glyph_w: int,
    pub glyph_h: int,
    pub bpg: int,
    pub header: int,
    pub font: Seq<u8>,
}

/// What a terminal shows: the pixels, the cursor cell and the colours.
pub struct Screen {
    pub pixels: Seq<u32>,
    pub col: int,
    pub row: int,
    pub fg: u32,
    pub bg: u32,
}

/// Little-endian 32-bit value at `off`.
pub open spec fn le32(s: Seq<u8>, off: int) -> int {
    s[off] + 256 * s[off + 1] + 65536 * s[off + 2] + 16777216 * s[off + 3]
}

/// The PSF2 header fields the terminal uses: header size, bytes per glyph,
/// glyph height, glyph width.
pub open spec fn psf2_fields(font: Seq<u8>) -> (int, int, int, int) {
    (le32(font, 8), le32(font, 20), le32(font, 24), le32(font, 28))
}

/// A font the terminal can draw every byte value from.
pub open spec fn font_ok(font: Seq<u8>) -> bool {
    let (header, bpg, gh, gw) = psf2_fields(font);
    &&& font.len() >= 32
    &&& gw >= 1
    &&& gh >= 1
    &&& bpg >= gh * ((gw + 7) / 8)
    &&& header + 256 * bpg <= font.len()
}

/// A framebuffer whose sizes and pixel count fit a `usize`.
pub open spec fn fb_fits(fb: FramebufferInfo) -> bool {
    let pitch = fb.pitch as int / 4;
    &&& fb.width <= usize::MAX
    &&& fb.height <= usize::MAX
    &&& fb.pitch <= usize::MAX
    &&& fb.height * pitch <= usize::MAX
}

/// A framebuffer that fits, holds at least one glyph cell and whose
/// scanlines are as wide as its visible width: one a terminal can write on.
pub open spec fn fb_ok(fb: FramebufferInfo, font: Seq<u8>) -> bool {
    let (header, bpg, gh, gw) = psf2_fields(font);
    let pitch = fb.pitch as int / 4;
    &&& fb.width <= usize::MAX
    &&& fb.height <= usize::MAX
    &&& fb.pitch <= usize::MAX
    &&& fb.width <= pitch
    &&& fb.height * pitch <= usize::MAX
    &&& fb.width as int / gw >= 1
    &&& fb.height as int / gh >= 1
}

/// The layout `Terminal::new` gives a framebuffer and font.
pub open spec fn geometry_of(fb: FramebufferInfo, font: Seq<u8>) -> Geometry {
    let (header, bpg, gh, gw) = psf2_fields(font);
    Geometry {
        width: fb.width as int,
        height: fb.height as int,
        pitch: fb.pitch as int / 4,
        cols: fb.width as int / gw,
        rows: fb.height as int / gh,
        glyph_w: gw,
        glyph_h: gh,
        bpg,
        header,
        font,
    }
}

/// Bit `k` of `b` is set.
pub open spec fn bit_of(b: u8, k: int) -> bool {
    (b >> (k as u8)) & 1u8 != 0u8
}

/// Whether pixel (`gx`, `gy`) of the glyph for byte `c` is lit.
pub open spec fn lit(g: Geometry, c: int, gx: int, gy: int) -> bool {
    let bpr = (g.glyph_w + 7) / 8;
    bit_of(g.font[g.header + c * g.bpg + gy * bpr + gx / 8], 7 - gx % 8)
}

/// Scanline of pixel index `i`.
pub open spec fn line_of(g: Geometry, i: int) -> int {
    i / g.pitch
}

/// Column (within its scanline) of pixel index `i`.
pub open spec fn dot_of(g: Geometry, i: int) -> int {
    i % g.pitch
}

/// Pixel index `i` lies in the glyph cell (`col`, `row`).
pub open spec fn in_cell(g: Geometry, col: int, row: int, i: int) -> bool {
    &&& row * g.glyph_h <= line_of(g, i) < row * g.glyph_h + g.glyph_h
    &&& col * g.glyph_w <= dot_of(g, i) < col * g.glyph_w + g.glyph_w
}

/// The pixels after drawing byte `c` in cell (`col`, `row`).
pub open spec fn drawn(g: Geometry, s: Screen, col: int, row: int, c: int) -> Seq<u32> {
    Seq::new(
        s.pixels.len(),
        |i: int|
            if in_cell(g, col, row, i) {
                if lit(g, c, dot_of(g, i) - col * g.glyph_w, line_of(g, i) - row * g.glyph_h) {
                    s.fg
                } else {
                    s.bg
                }
            } else {
                s.pixels[i]
            },
    )
}

/// The pixels after blanking cell (`col`, `row`).
pub open spec fn erased(g: Geometry, s: Screen, col: int, row: int) -> Seq<u32> {
    Seq::new(s.pixels.len(), |i: int| if in_cell(g, col, row, i) { s.bg } else { s.pixels[i] })
}

/// The pixels after moving every text row up by one and blanking the last.
pub open spec fn scrolled(g: Geometry, s: Screen) -> Seq<u32> {
    let rl = g.glyph_h * g.pitch;
    Seq::new(
        s.pixels.len(),
        |i: int|
            if i < (g.rows - 1) * rl {
                s.pixels[i + rl]
            } else if i < g.rows * rl {
                s.bg
            } else {
                s.pixels[i]
            },
    )
}

/// The glyph shown for character `c`: printable ASCII as itself, anything
/// else as `?`.
pub open spec fn shown_byte(c: char) -> int {
    if 32 <= (c as u32) < 128 {
        c as u32 as int
    } else {
        63
    }
}

/// The screen with every pixel in the background colour and the cursor home.
pub open spec fn cleared(s: Screen) -> Screen {
    Screen { pixels: Seq::new(s.pixels.len(), |i: int| s.bg), col: 0, row: 0, ..s }
}

/// The screen after a backspace: the cursor moves back one cell (to the end
/// of the previous row at a row start; not at all at the top left) and that
/// cell is blanked.
pub open spec fn backspaced(g: Geometry, s: Screen) -> Screen {
    if s.col > 0 {
        Screen { pixels: erased(g, s, s.col - 1, s.row), col: s.col - 1, ..s }
    } else if s.row > 0 {
        Screen { pixels: erased(g, s, g.cols - 1, s.row - 1), col: g.cols - 1, row: s.row - 1, ..s }
    } else {
        s
    }
}

/// The screen after writing character `c`.
pub open spec fn put_char(g: Geometry, s: Screen, c: char) -> Screen {
    let s1 = if c == '\n' {
        Screen { col: 0, row: s.row + 1, ..s }
    } else if c == '\r' {
        Screen { col: 0, ..s }
    } else {
        Screen { pixels: drawn(g, s, s.col, s.row, shown_byte(c)), col: s.col + 1, ..s }
    };
    let s2 = if s1.col >= g.cols {
        Screen { col: 0, row: s1.row + 1, ..s1 }
    } else {
        s1
    };
    if s2.row >= g.rows {
        Screen { pixels: scrolled(g, s2), row: g.rows - 1, ..s2 }
    } else {
        s2
    }
}

/// The screen after writing `cs` in order.
pub open spec fn put_chars(g: Geometry, s: Screen, cs: Seq<char>) -> Screen
    decreases cs.len(),
{
    if cs.len() == 0 {
        s
    } else {
        put_char(g, put_chars(g, s, cs.drop_last()), cs.last())
    }
}

/// Bytes as the characters with the same code.
pub open spec fn byte_chars(bs: Seq<u8>) -> Seq<char> {
    Seq::new(bs.len(), |i: int| bs[i] as char)
}

/// Writing `a + b` writes `a`, then `b`.
pub proof fn lemma_put_chars_concat(g: Geometry, s: Screen, a: Seq<char>, b: Seq<char>)
    ensures
        put_chars(g, s, a + b) == put_chars(g, put_chars(g, s, a), b),
    decreases b.len(),
{
    if b.len() == 0 {
        assert(a + b =~= a);
    } else {
        assert((a + b).drop_last() =~= a + b.drop_last());
        lemma_put_chars_concat(g, s, a, b.drop_last());
    }
}

/// A layout consistent with its `npix` pixels and its font, which has a
/// glyph for every byte value. Its grid of glyph cells may be empty.
pub open spec fn layout_ok(g: Geometry, npix: int) -> bool {
    &&& npix == g.height * g.pitch
    &&& npix <= usize::MAX
    &&& g.glyph_w >= 1
    &&& g.glyph_h >= 1
    &&& g.cols == g.width / g.glyph_w
    &&& g.rows == g.height / g.glyph_h
    &&& g.width >= 0
    &&& g.pitch >= 0
    &&& g.height >= 0
    &&& g.bpg >= g.glyph_h * ((g.glyph_w + 7) / 8)
    &&& g.header >= 0
    &&& g.header + 256 * g.bpg <= g.font.len()
}

/// A layout whose every glyph cell lies inside the `npix` pixels: at least
/// one cell, and scanlines as wide as the visible width.
pub open spec fn geom_ok(g: Geometry, npix: int) -> bool {
    &&& layout_ok(g, npix)
    &&& g.cols >= 1
    &&& g.rows >= 1
    &&& g.width <= g.pitch
}

/// The terminal.
pub struct Terminal {
    pixels: Vec<u32>,
    font: Vec<u8>,
    width: usize,
    height: usize,
    pitch: usize,
    cols: usize,
    rows: usize,
    col: usize,
    row: usize,
    fg: u32,
    bg: u32,
    glyph_h: usize,
    glyph_w: usize,
    bytes_per_glyph: usize,
    header_size: usize,
}

impl Terminal {
    pub closed spec fn geom(&self) -> Geometry {
        Geometry {
            width: self.width as int,
            height: self.height as int,
            pitch: self.pitch as int,
            cols: self.cols as int,
            rows: self.rows as int,
            glyph_w: self.glyph_w as int,
            glyph_h: self.glyph_h as int,
            bpg: self.bytes_per_glyph as int,
            header: self.header_size as int,
            font: self.font@,
        }
    }

    pub closed spec fn screen(&self) -> Screen {
        Screen {
            pixels: self.pixels@,
            col: self.col as int,
            row: self.row as int,
            fg: self.fg,
            bg: self.bg,
        }
    }

    /// Layout consistent with the font, cursor inside the grid.
    pub open spec fn wf(&self) -> bool {
        &&& geom_ok(self.geom(), self.screen().pixels.len() as int)
        &&& 0 <= self.screen().col < self.geom().cols
        &&& 0 <= self.screen().row < self.geom().rows
    }

}

impl Terminal {
    /// A terminal on framebuffer `fb` (none when there is no framebuffer),
    /// cleared to the background colour with the cursor at the top left. It
    /// can be written on (`wf`) exactly when the framebuffer holds a glyph
    /// cell and its scanlines are as wide as its visible width (`fb_ok`).
    pub fn new(fb: Option<FramebufferInfo>, font: Vec<u8>) -> (r: Option<Terminal>)
        requires
            font_ok(font@),
            fb matches Some(f) ==> fb_fits(f),
        ensures
            fb is None ==> r is None,
            fb matches Some(f) ==> r matches Some(t) && (t.wf() == fb_ok(f, font@)) && layout_ok(
                t.geom(),
                t.screen().pixels.len() as int,
            ) && t.geom() == geometry_of(
                f,
                font@,
            ) && t.screen() == cleared(
                Screen {
                    pixels: t.screen().pixels,
                    col: 0,
                    row: 0,
                    fg: COLOR_FG,
                    bg: COLOR_BG,
                },
            ),
    {
        let fb = match fb {
            Some(f) => f,
            None => {
                return None;
            },
        };
        let (header_size, bytes_per_glyph, glyph_h, glyph_w) = psf2_header(font.as_slice());
        let width = fb.width as usize;
        let height = fb.height as usize;
        let pitch = fb.pitch as usize / 4;
        assert(height * pitch <= usize::MAX);
        let total = height * pitch;
        let mut pixels: Vec<u32> = Vec::new();
        let mut i: usize = 0;
        while i < total
            invariant
                i <= total,
                pixels@.len() == i,
            decreases total - i,
        {
            pixels.push(0u32);
            i = i + 1;
        }
        let mut term = Terminal {
            pixels,
            font,
            width,
            height,
            pitch,
            cols: width / glyph_w,
            rows: height / glyph_h,
            col: 0,
            row: 0,
            fg: COLOR_FG,
            bg: COLOR_BG,
            glyph_h,
            glyph_w,
            bytes_per_glyph,
            header_size,
        };
        term.clear();
        assert(term.geom().font =~= geometry_of(fb, term.font@).font);
        Some(term)
    }

    /// A terminal on framebuffer `fb` when there is one, `font` is usable
    /// (`font_ok`) and the framebuffer's sizes fit (`fb_fits`); `None`
    /// otherwise. Whether it can be written on is `usable`.
    pub fn open(fb: Option<FramebufferInfo>, font: Vec<u8>) -> (r: Option<Terminal>)
        ensures
            r is Some <==> (fb is Some && font_ok(font@) && fb_fits(fb.unwrap())),
            r matches Some(t) ==> (t.wf() == fb_ok(fb.unwrap(), font@)) && layout_ok(
                t.geom(),
                t.screen().pixels.len() as int,
            ) && t.geom() == geometry_of(fb.unwrap(), font@) && t.screen() == cleared(
                Screen { pixels: t.screen().pixels, col: 0, row: 0, fg: COLOR_FG, bg: COLOR_BG },
            ),
    {
        let f = match fb {
            Some(f) => f,
            None => {
                return None;
            },
        };
        if font.len() < 32 {
            return None;
        }
        let (header, bpg, gh, gw) = psf2_header(font.as_slice());
        if gw == 0 || gh == 0 {
            return None;
        }
        let header = header as u64;
        let bpg = bpg as u64;
        let gh = gh as u64;
        let gw = gw as u64;
        proof {
            assert(gh * ((gw + 7) / 8) <= 0xffff_ffff * 0x2000_0000) by (nonlinear_arith)
                requires
                    gh <= 0xffff_ffff,
                    gw <= 0xffff_ffff,
            ;
        }
        if bpg < gh * ((gw + 7) / 8) {
            return None;
        }
        if header + 256 * bpg > font.len() as u64 {
            return None;
        }
        let max = usize::MAX as u64;
        if f.width > max || f.height > max || f.pitch > max {
            return None;
        }
        let pitch = f.pitch / 4;
        match f.height.checked_mul(pitch) {
            Some(n) => {
                if n > max {
                    return None;
                }
            },
            None => {
                return None;
            },
        }
        Terminal::new(Some(f), font)
    }

    /// Whether the terminal can be written on: it has at least one glyph
    /// cell and its scanlines are as wide as its visible width.
    pub fn usable(&self) -> (r: bool)
        requires
            layout_ok(self.geom(), self.screen().pixels.len() as int),
        ensures
            r == self.wf(),
    {
        self.cols >= 1 && self.rows >= 1 && self.width <= self.pitch && self.col < self.cols
            && self.row < self.rows
    }

    /// Fills the screen with the background colour and homes the cursor.
    pub fn clear(&mut self)
        requires
            layout_ok(old(self).geom(), old(self).screen().pixels.len() as int),
        ensures
            layout_ok(final(self).geom(), final(self).screen().pixels.len() as int),
            final(self).wf() == geom_ok(final(self).geom(), final(self).screen().pixels.len() as int),
            final(self).geom() == old(self).geom(),
            final(self).screen() == cleared(old(self).screen()),
    {
        let bg = self.bg;
        let total = self.height * self.pitch;
        self.col = 0;
        self.row = 0;
        fill(&mut self.pixels, 0, total, bg);
        assert(self.screen().pixels =~= cleared(old(self).screen()).pixels);
    }

    /// Sets the foreground and background colours of later output.
    pub fn set_color(&mut self, fg: u32, bg: u32)
        requires
            old(self).wf(),
        ensures
            final(self).wf(),
            final(self).geom() == old(self).geom(),
            final(self).screen() == (Screen { fg, bg, ..old(self).screen() }),
    {
        self.fg = fg;
        self.bg = bg;
    }

    /// Writes one pixel.
    fn put_pixel(&mut self, x: usize, y: usize, color: u32)
        requires
            geom_ok(old(self).geom(), old(self).screen().pixels.len() as int),
            x < old(self).pitch,
            y < old(self).height,
        ensures
            final(self).geom() == old(self).geom(),
            final(self).screen() == (Screen {
                pixels: old(self).screen().pixels.update(y * old(self).pitch + x, color),
                ..old(self).screen()
            }),
    {
        proof {
            assert(y * self.pitch + x < self.height * self.pitch) by (nonlinear_arith)
                requires
                    x < self.pitch,
                    y < self.height,
            ;
        }
        self.pixels.set(y * self.pitch + x, color);
    }

    /// Draws the glyph for byte `c` in cell (`col`, `row`) in the current
    /// colours.
    fn draw_glyph(&mut self, col: usize, row: usize, c: u8)
        requires
            geom_ok(old(self).geom(), old(self).screen().pixels.len() as int),
            col < old(self).cols,
            row < old(self).rows,
        ensures
            final(self).geom() == old(self).geom(),
            final(self).screen() == (Screen {
                pixels: drawn(old(self).geom(), old(self).screen(), col as int, row as int, c as int),
                ..old(self).screen()
            }),
    {
        let ghost g = self.geom();
        let ghost s0 = self.screen();
        let font_len = self.font.len();
        proof {
            lemma_cell_inside(g, col as int, row as int);
            assert(c * g.bpg + g.bpg <= 256 * g.bpg) by (nonlinear_arith)
                requires
                    c < 256,
                    g.bpg >= 0,
            ;
            assert(g.glyph_w + 7 <= usize::MAX) by (nonlinear_arith)
                requires
                    g.bpg >= g.glyph_h * ((g.glyph_w + 7) / 8),
                    g.glyph_h >= 1,
                    g.glyph_w >= 1,
                    g.header >= 0,
                    g.header + 256 * g.bpg <= font_len,
                    font_len <= usize::MAX,
            ;
        }
        let glyph = get_glyph(self.font.as_slice(), c, self.header_size, self.bytes_per_glyph);
        let mut bits: Vec<u8> = Vec::new();
        let mut k: usize = 0;
        while k < glyph.len()
            invariant
                k <= glyph@.len(),
                bits@ == glyph@.take(k as int),
            decreases glyph.len() - k,
        {
            bits.push(glyph[k]);
            k = k + 1;
            assert(bits@ =~= glyph@.take(k as int));
        }
        assert(bits@ =~= glyph@);
        let px = col * self.glyph_w;
        let py = row * self.glyph_h;
        let fg = self.fg;
        let bg = self.bg;
        let bytes_per_row = (self.glyph_w + 7) / 8;
        let gh = self.glyph_h;
        let gw = self.glyph_w;
        let mut gy: usize = 0;
        while gy < gh
            invariant
                g == old(self).geom(),
                s0 == old(self).screen(),
                self.geom() == g,
                geom_ok(g, self.screen().pixels.len() as int),
                self.screen().pixels.len() == s0.pixels.len(),
                self.screen().col == s0.col,
                self.screen().row == s0.row,
                self.screen().fg == fg,
                self.screen().bg == bg,
                fg == s0.fg,
                bg == s0.bg,
                gh == g.glyph_h,
                gw == g.glyph_w,
                bytes_per_row == (g.glyph_w + 7) / 8,
                px == col * g.glyph_w,
                py == row * g.glyph_h,
                px + gw <= g.width,
                py + gh <= g.height,
                0 <= col < g.cols,
                0 <= row < g.rows,
                bits@ == g.font.subrange(g.header + c * g.bpg, g.header + c * g.bpg + g.bpg),
                bits@.len() == g.bpg,
                g.header + c * g.bpg + g.bpg <= g.font.len(),
                gy <= gh,
                forall|i: int|
                    0 <= i < s0.pixels.len() ==> #[trigger] self.screen().pixels[i] == if in_cell(
                        g,
                        col as int,
                        row as int,
                        i,
                    ) && line_of(g, i) - py < gy {
                        drawn(g, s0, col as int, row as int, c as int)[i]
                    } else {
                        s0.pixels[i]
                    },
            decreases gh - gy,
        {
            let mut gx: usize = 0;
            while gx < gw
                invariant
                    g == old(self).geom(),
                    s0 == old(self).screen(),
                    self.geom() == g,
                    geom_ok(g, self.screen().pixels.len() as int),
                    self.screen().pixels.len() == s0.pixels.len(),
                    self.screen().col == s0.col,
                    self.screen().row == s0.row,
                    self.screen().fg == fg,
                    self.screen().bg == bg,
                    fg == s0.fg,
                    bg == s0.bg,
                    gh == g.glyph_h,
                    gw == g.glyph_w,
                    bytes_per_row == (g.glyph_w + 7) / 8,
                    px == col * g.glyph_w,
                    py == row * g.glyph_h,
                    px + gw <= g.width,
                    py + gh <= g.height,
                    0 <= col < g.cols,
                    0 <= row < g.rows,
                    bits@ == g.font.subrange(g.header + c * g.bpg, g.header + c * g.bpg + g.bpg),
                    bits@.len() == g.bpg,
                    g.header + c * g.bpg + g.bpg <= g.font.len(),
                bits@.len() == g.bpg,
                g.header + c * g.bpg + g.bpg <= g.font.len(),
                    gy < gh,
                    gx <= gw,
                    forall|i: int|
                        0 <= i < s0.pixels.len() ==> #[trigger] self.screen().pixels[i] == if in_cell(
                            g,
                            col as int,
                            row as int,
                            i,
                        ) && (line_of(g, i) - py < gy || (line_of(g, i) - py == gy && dot_of(g, i)
                            - px < gx)) {
                            drawn(g, s0, col as int, row as int, c as int)[i]
                        } else {
                            s0.pixels[i]
                        },
                decreases gw - gx,
            {
                proof {
                    assert(gy * bytes_per_row + gx / 8 < g.bpg) by (nonlinear_arith)
                        requires
                            gy < g.glyph_h,
                            gx < g.glyph_w,
                            bytes_per_row == (g.glyph_w + 7) / 8,
                            g.bpg >= g.glyph_h * ((g.glyph_w + 7) / 8),
                    ;
                }
                let bytes_idx = gy * bytes_per_row + gx / 8;
                let bit = (7 - (gx % 8)) as u8;
                let on = (bits[bytes_idx] >> bit) & 1u8 != 0u8;
                let color = if on {
                    fg
                } else {
                    bg
                };
                let x = px + gx;
                let y = py + gy;
                let ghost idx = y * g.pitch + x;
                let ghost before = self.screen().pixels;
                proof {
                    lemma_index(g, x as int, y as int);
                    assert(bits@[bytes_idx as int] == g.font[g.header + c * g.bpg + gy * bytes_per_row
                        + gx / 8]);
                    assert(0 <= idx < s0.pixels.len()) by (nonlinear_arith)
                        requires
                            x < g.pitch,
                            y < g.height,
                            idx == y * g.pitch + x,
                            s0.pixels.len() == g.height * g.pitch,
                    ;
                }
                self.put_pixel(x, y, color);
                proof {
                    assert forall|i: int| 0 <= i < s0.pixels.len() implies #[trigger] self.screen().pixels[i]
                        == if in_cell(g, col as int, row as int, i) && (line_of(g, i) - py < gy || (
                        line_of(g, i) - py == gy && dot_of(g, i) - px < gx + 1)) {
                        drawn(g, s0, col as int, row as int, c as int)[i]
                    } else {
                        s0.pixels[i]
                    } by {
                        lemma_split(g, i);
                        if i != idx {
                            assert(before[i] == self.screen().pixels[i]);
                            if line_of(g, i) - py == gy && dot_of(g, i) - px == gx {
                                assert(i == idx);
                            }
                        }
                    }
                }
                gx = gx + 1;
            }
            proof {
                assert forall|i: int| 0 <= i < s0.pixels.len() implies #[trigger] self.screen().pixels[i]
                    == if in_cell(g, col as int, row as int, i) && line_of(g, i) - py < gy + 1 {
                    drawn(g, s0, col as int, row as int, c as int)[i]
                } else {
                    s0.pixels[i]
                } by {
                    if in_cell(g, col as int, row as int, i) && line_of(g, i) - py == gy {
                        assert(dot_of(g, i) - px < gx);
                    }
                }
            }
            gy = gy + 1;
        }
        assert(self.screen().pixels =~= drawn(g, s0, col as int, row as int, c as int));
    }

    /// Blanks cell (`col`, `row`) in the background colour.
    fn erase_glyph(&mut self, col: usize, row: usize)
        requires
            geom_ok(old(self).geom(), old(self).screen().pixels.len() as int),
            col < old(self).cols,
            row < old(self).rows,
        ensures
            final(self).geom() == old(self).geom(),
            final(self).screen() == (Screen {
                pixels: erased(old(self).geom(), old(self).screen(), col as int, row as int),
                ..old(self).screen()
            }),
    {
        let ghost g = self.geom();
        let ghost s0 = self.screen();
        proof {
            lemma_cell_inside(g, col as int, row as int);
        }
        let px = col * self.glyph_w;
        let py = row * self.glyph_h;
        let bg = self.bg;
        let gh = self.glyph_h;
        let gw = self.glyph_w;
        let mut gy: usize = 0;
        while gy < gh
            invariant
                g == old(self).geom(),
                s0 == old(self).screen(),
                self.geom() == g,
                geom_ok(g, self.screen().pixels.len() as int),
                self.screen().pixels.len() == s0.pixels.len(),
                self.screen().col == s0.col,
                self.screen().row == s0.row,
                self.screen().fg == s0.fg,
                self.screen().bg == bg,
                bg == s0.bg,
                gh == g.glyph_h,
                gw == g.glyph_w,
                px == col * g.glyph_w,
                py == row * g.glyph_h,
                px + gw <= g.width,
                py + gh <= g.height,
                gy <= gh,
                forall|i: int|
                    0 <= i < s0.pixels.len() ==> #[trigger] self.screen().pixels[i] == if in_cell(
                        g,
                        col as int,
                        row as int,
                        i,
                    ) && line_of(g, i) - py < gy {
                        bg
                    } else {
                        s0.pixels[i]
                    },
            decreases gh - gy,
        {
            let mut gx: usize = 0;
            while gx < gw
                invariant
                    g == old(self).geom(),
                    s0 == old(self).screen(),
                    self.geom() == g,
                    geom_ok(g, self.screen().pixels.len() as int),
                    self.screen().pixels.len() == s0.pixels.len(),
                    self.screen().col == s0.col,
                    self.screen().row == s0.row,
                    self.screen().fg == s0.fg,
                    self.screen().bg == bg,
                    bg == s0.bg,
                    gh == g.glyph_h,
                    gw == g.glyph_w,
                    px == col * g.glyph_w,
                    py == row * g.glyph_h,
                    px + gw <= g.width,
                    py + gh <= g.height,
                    gy < gh,
                    gx <= gw,
                    forall|i: int|
                        0 <= i < s0.pixels.len() ==> #[trigger] self.screen().pixels[i] == if in_cell(
                            g,
                            col as int,
                            row as int,
                            i,
                        ) && (line_of(g, i) - py < gy || (line_of(g, i) - py == gy && dot_of(g, i)
                            - px < gx)) {
                            bg
                        } else {
                            s0.pixels[i]
                        },
                decreases gw - gx,
            {
                let x = px + gx;
                let y = py + gy;
                let ghost idx = y * g.pitch + x;
                let ghost before = self.screen().pixels;
                proof {
                    lemma_index(g, x as int, y as int);
                    assert(0 <= idx < s0.pixels.len()) by (nonlinear_arith)
                        requires
                            x < g.pitch,
                            y < g.height,
                            idx == y * g.pitch + x,
                            s0.pixels.len() == g.height * g.pitch,
                    ;
                }
                self.put_pixel(x, y, bg);
                proof {
                    assert forall|i: int| 0 <= i < s0.pixels.len() implies #[trigger] self.screen().pixels[i]
                        == if in_cell(g, col as int, row as int, i) && (line_of(g, i) - py < gy || (
                        line_of(g, i) - py == gy && dot_of(g, i) - px < gx + 1)) {
                        bg
                    } else {
                        s0.pixels[i]
                    } by {
                        lemma_split(g, i);
                        if i != idx {
                            assert(before[i] == self.screen().pixels[i]);
                            if line_of(g, i) - py == gy && dot_of(g, i) - px == gx {
                                assert(i == idx);
                            }
                        }
                    }
                }
                gx = gx + 1;
            }
            proof {
                assert forall|i: int| 0 <= i < s0.pixels.len() implies #[trigger] self.screen().pixels[i]
                    == if in_cell(g, col as int, row as int, i) && line_of(g, i) - py < gy + 1 {
                    bg
                } else {
                    s0.pixels[i]
                } by {
                    if in_cell(g, col as int, row as int, i) && line_of(g, i) - py == gy {
                        assert(dot_of(g, i) - px < gx);
                    }
                }
            }
            gy = gy + 1;
        }
        assert(self.screen().pixels =~= erased(g, s0, col as int, row as int));
    }

    /// Moves every text row up by one and blanks the last row.
    fn scroll(&mut self)
        requires
            geom_ok(old(self).geom(), old(self).screen().pixels.len() as int),
        ensures
            final(self).geom() == old(self).geom(),
            final(self).screen() == (Screen {
                pixels: scrolled(old(self).geom(), old(self).screen()),
                ..old(self).screen()
            }),
    {
        let ghost g = self.geom();
        let ghost s0 = self.screen();
        proof {
            lemma_cell_inside(g, 0, g.rows - 1);
            assert(g.rows * (g.glyph_h * g.pitch) <= g.height * g.pitch) by (nonlinear_arith)
                requires
                    (g.rows - 1) * g.glyph_h + g.glyph_h <= g.height,
                    g.pitch >= 0,
            ;
            assert((g.rows - 1) * (g.glyph_h * g.pitch) + g.glyph_h * g.pitch == g.rows * (g.glyph_h
                * g.pitch)) by (nonlinear_arith);
            assert(g.glyph_h * g.pitch <= g.height * g.pitch) by (nonlinear_arith)
                requires
                    g.glyph_h <= g.height,
                    g.pitch >= 0,
            ;
            assert((g.rows - 1) * (g.glyph_h * g.pitch) >= 0) by (nonlinear_arith)
                requires
                    g.rows >= 1,
                    g.glyph_h >= 1,
                    g.pitch >= 0,
            ;
        }
        let row_len = self.glyph_h * self.pitch;
        let moved = (self.rows - 1) * row_len;
        let bg = self.bg;
        move_back(&mut self.pixels, moved, row_len);
        fill(&mut self.pixels, moved, moved + row_len, bg);
        assert(self.screen().pixels =~= scrolled(g, s0));
    }

    /// Erases the character before the cursor and moves the cursor there.
    pub fn backspace(&mut self)
        requires
            old(self).wf(),
        ensures
            final(self).wf(),
            final(self).geom() == old(self).geom(),
            final(self).screen() == backspaced(old(self).geom(), old(self).screen()),
    {
        if self.col > 0 {
            self.col = self.col - 1;
        } else if self.row > 0 {
            self.row = self.row - 1;
            self.col = self.cols - 1;
        } else {
            return;
        }
        let col = self.col;
        let row = self.row;
        self.erase_glyph(col, row);
    }

    /// Writes character `c` at the cursor: a line feed moves to the start
    /// of the next row, a carriage return to the start of this row, any
    /// other character is drawn (non-printable ones as `?`) and the cursor
    /// advances, wrapping at the last column; moving past the last row
    /// scrolls the screen up by one row.
    pub fn putc(&mut self, c: char)
        requires
            old(self).wf(),
        ensures
            final(self).wf(),
            final(self).geom() == old(self).geom(),
            final(self).screen() == put_char(old(self).geom(), old(self).screen(), c),
    {
        let ghost g = self.geom();
        if c == '\n' {
            self.col = 0;
            self.row = self.row + 1;
        } else if c == '\r' {
            self.col = 0;
        } else {
            let code = c as u32;
            let byte: u8 = if code >= 32 && code < 128 {
                code as u8
            } else {
                63u8
            };
            let col = self.col;
            let row = self.row;
            self.draw_glyph(col, row, byte);
            self.col = self.col + 1;
        }
        if self.col >= self.cols {
            self.col = 0;
            self.row = self.row + 1;
        }
        if self.row >= self.rows {
            self.scroll();
            self.row = self.rows - 1;
        }
    }

    /// Writes every character of `s` in turn.
    pub fn print(&mut self, s: &str)
        requires
            old(self).wf(),
        ensures
            final(self).wf(),
            final(self).geom() == old(self).geom(),
            final(self).screen() == put_chars(old(self).geom(), old(self).screen(), s@),
    {
        let ghost g = self.geom();
        let ghost s0 = self.screen();
        for c in it: s.chars()
            invariant
                it.seq() == s@,
                self.wf(),
                self.geom() == g,
                self.screen() == put_chars(g, s0, s@.take(it.index() as int)),
        {
            assert(s@.take(it.index() + 1).drop_last() =~= s@.take(it.index() as int));
            self.putc(c);
        }
        assert(s@.take(s@.len() as int) =~= s@);
    }

    /// Writes the bytes of `bs` as characters.
    fn put_bytes(&mut self, bs: &Vec<u8>)
        requires
            old(self).wf(),
        ensures
            final(self).wf(),
            final(self).geom() == old(self).geom(),
            final(self).screen() == put_chars(old(self).geom(), old(self).screen(), byte_chars(bs@)),
    {
        let ghost g = self.geom();
        let ghost s0 = self.screen();
        let mut i: usize = 0;
        while i < bs.len()
            invariant
                i <= bs@.len(),
                self.wf(),
                self.geom() == g,
                self.screen() == put_chars(g, s0, byte_chars(bs@.take(i as int))),
            decreases bs.len() - i,
        {
            assert(byte_chars(bs@.take(i + 1)).drop_last() =~= byte_chars(bs@.take(i as int)));
            self.putc(bs[i] as char);
            i = i + 1;
        }
        assert(bs@.take(i as int) =~= bs@);
    }

    /// Writes `v` as `0x` and sixteen lower-case hexadecimal digits.
    pub fn print_hex64(&mut self, v: u64)
        requires
            old(self).wf(),
        ensures
            final(self).wf(),
            final(self).geom() == old(self).geom(),
            final(self).screen() == put_chars(old(self).geom(), old(self).screen(), byte_chars(hex64_text(v))),
    {
        let ghost g = self.geom();
        let ghost s0 = self.screen();
        self.print("0x");
        let digits = hex16_digits(v);
        self.put_bytes(&digits);
        proof {
            reveal_strlit("0x");
            assert("0x"@ =~= byte_chars(seq![48u8, 120u8]));
            assert(byte_chars(hex64_text(v)) =~= byte_chars(seq![48u8, 120u8]) + byte_chars(hex16(v)));
            lemma_put_chars_concat(g, s0, byte_chars(seq![48u8, 120u8]), byte_chars(hex16(v)));
        }
    }

    /// Writes `v` in decimal.
    pub fn print_usize(&mut self, v: usize)
        requires
            old(self).wf(),
        ensures
            final(self).wf(),
            final(self).geom() == old(self).geom(),
            final(self).screen() == put_chars(old(self).geom(), old(self).screen(), byte_chars(dec_digits(v as nat))),
    {
        let digits = decimal_digits(v as u64);
        self.put_bytes(&digits);
    }

    /// The pixels, `pitch` per scanline.
    pub fn pixels(&self) -> (r: &Vec<u32>)
        ensures
            r@ == self.screen().pixels,
    {
        &self.pixels
    }

    /// The cursor cell as (column, row).
    pub fn cursor(&self) -> (r: (usize, usize))
        ensures
            r.0 == self.screen().col,
            r.1 == self.screen().row,
    {
        (self.col, self.row)
    }

    /// Pixels per scanline.
    pub fn pitch(&self) -> (r: usize)
        ensures
            r == self.geom().pitch,
    {
        self.pitch
    }
}

/// The pixel at scanline `y`, column `x` has index `y * pitch + x`.
proof fn lemma_index(g: Geometry, x: int, y: int)
    requires
        g.pitch >= 1,
        0 <= x < g.pitch,
        0 <= y,
    ensures
        line_of(g, y * g.pitch + x) == y,
        dot_of(g, y * g.pitch + x) == x,
{
    lemma_fundamental_div_mod_converse(y * g.pitch + x, g.pitch, y, x);
}

/// Scanline and column determine the pixel index.
proof fn lemma_split(g: Geometry, i: int)
    requires
        g.pitch >= 1,
        0 <= i,
    ensures
        i == line_of(g, i) * g.pitch + dot_of(g, i),
        0 <= dot_of(g, i) < g.pitch,
        0 <= line_of(g, i),
{
    lemma_fundamental_div_mod(i, g.pitch);
    assert(line_of(g, i) * g.pitch == g.pitch * line_of(g, i)) by (nonlinear_arith);
    assert(0 <= i / g.pitch) by (nonlinear_arith)
        requires
            0 <= i,
            g.pitch >= 1,
    ;
}

/// Cell (`col`, `row`) of a grid inside the framebuffer lies inside it.
proof fn lemma_cell_inside(g: Geometry, col: int, row: int)
    requires
        g.glyph_w >= 1,
        g.glyph_h >= 1,
        g.cols == g.width / g.glyph_w,
        g.rows == g.height / g.glyph_h,
        0 <= col < g.cols,
        0 <= row < g.rows,
        g.width >= 0,
        g.height >= 0,
    ensures
        col * g.glyph_w + g.glyph_w <= g.width,
        row * g.glyph_h + g.glyph_h <= g.height,
        col * g.glyph_w >= 0,
        row * g.glyph_h >= 0,
{
    assert(col * g.glyph_w + g.glyph_w <= g.width) by (nonlinear_arith)
        requires
            g.glyph_w >= 1,
            0 <= col < g.width / g.glyph_w,
            g.width >= 0,
    ;
    assert(row * g.glyph_h + g.glyph_h <= g.height) by (nonlinear_arith)
        requires
            g.glyph_h >= 1,
            0 <= row < g.height / g.glyph_h,
            g.height >= 0,
    ;
    assert(col * g.glyph_w >= 0) by (nonlinear_arith)
        requires
            g.glyph_w >= 1,
            0 <= col,
    ;
    assert(row * g.glyph_h >= 0) by (nonlinear_arith)
        requires
            g.glyph_h >= 1,
            0 <= row,
    ;
}

/// Copies `v[off..off + n]` to `v[0..n]`.
fn move_back(v: &mut Vec<u32>, n: usize, off: usize)
    requires
        n + off <= old(v)@.len(),
    ensures
        final(v)@.len() == old(v)@.len(),
        forall|k: int|
            0 <= k < old(v)@.len() ==> #[trigger] final(v)@[k] == if k < n {
                old(v)@[k + off]
            } else {
                old(v)@[k]
            },
{
    let len = v.len();
    let mut i: usize = 0;
    while i < n
        invariant
            i <= n,
            len == v@.len(),
            n + off <= v@.len(),
            v@.len() == old(v)@.len(),
            forall|k: int| 0 <= k < i ==> #[trigger] v@[k] == old(v)@[k + off],
            forall|k: int| i <= k < v@.len() ==> #[trigger] v@[k] == old(v)@[k],
        decreases n - i,
    {
        let x = v[i + off];
        v.set(i, x);
        i = i + 1;
    }
}

/// Sets `v[start..end]` to `color`.
fn fill(v: &mut Vec<u32>, start: usize, end: usize, color: u32)
    requires
        start <= end <= old(v)@.len(),
    ensures
        final(v)@.len() == old(v)@.len(),
        forall|k: int|
            0 <= k < old(v)@.len() ==> #[trigger] final(v)@[k] == if start <= k < end {
                color
            } else {
                old(v)@[k]
            },
{
    let mut i: usize = start;
    while i < end
        invariant
            start <= i <= end,
            end <= v@.len(),
            v@.len() == old(v)@.len(),
            forall|k: int|
                0 <= k < v@.len() ==> #[trigger] v@[k] == if start <= k < i {
                    color
                } else {
                    old(v)@[k]
                },
        decreases end - i,
    {
        v.set(i, color);
        i = i + 1;
    }
}

/// Reads the little-endian 32-bit value at `off`.
fn read_le32(s: &[u8], off: usize) -> (r: usize)
    requires
        off + 4 <= s@.len(),
    ensures
        r == le32(s@, off as int),
{
    let v: u64 = s[off] as u64 + 256 * (s[off + 1] as u64) + 65536 * (s[off + 2] as u64)
        + 16777216 * (s[off + 3] as u64);
    proof {
        assert(v <= 0xffff_ffff);
    }
    v as usize
}

/// The PSF2 header fields: header size, bytes per glyph, glyph height and
/// glyph width.
pub fn psf2_header(font: &[u8]) -> (r: (usize, usize, usize, usize))
    requires
        font@.len() >= 32,
    ensures
        (r.0 as int, r.1 as int, r.2 as int, r.3 as int) == psf2_fields(font@),
{
    let header_size = read_le32(font, 8);
    let bytes_per_glyph = read_le32(font, 20);
    let height = read_le32(font, 24);
    let width = read_le32(font, 28);
    (header_size, bytes_per_glyph, height, width)
}

/// The bitmap of the glyph for byte `c`.
pub fn get_glyph(font: &[u8], c: u8, header_size: usize, bytes_per_glyph: usize) -> (r: &[u8])
    requires
        header_size + 256 * bytes_per_glyph <= font@.len(),
    ensures
        r@ == font@.subrange(
            header_size + c * bytes_per_glyph,
            header_size + c * bytes_per_glyph + bytes_per_glyph,
        ),
{
    let n = font.len();
    proof {
        assert(c * bytes_per_glyph + bytes_per_glyph <= 256 * bytes_per_glyph) by (nonlinear_arith)
            requires
                c < 256,
        ;
    }
    let offset = header_size + c as usize * bytes_per_glyph;
    &font[offset..offset + bytes_per_glyph]
}

/// Backspace undoes a printed character's cursor move: after writing any
/// character but a newline or carriage return, a backspace puts the cursor
/// back in the cell the character went to, unless the write scrolled the
/// screen (the last cell of the last row).
pub proof fn law_backspace_after_put_char(g: Geometry, s: Screen, c: char)
    requires
        g.cols >= 1,
        g.rows >= 1,
        0 <= s.col < g.cols,
        0 <= s.row < g.rows,
        c != '\n',
        c != '\r',
        !(s.col == g.cols - 1 && s.row == g.rows - 1),
    ensures
        backspaced(g, put_char(g, s, c)).col == s.col,
        backspaced(g, put_char(g, s, c)).row == s.row,
{
}

} // verus!
