//! Drawing the frame of the launcher: the search bar, the border, the cells of the
//! visible items with their highlight, icon and text.
//!
//! Text comes in shaped: for every text the caller hands over the glyph images
//! of its line, placed relative to the origin of the text. The frame is drawn in
//! one fixed order, each step over what the steps before have left.

use crate::grid::BAR_H;
use crate::grid::PAD;
use crate::launcher::Launcher;
use crate::launcher::LauncherView;
use crate::launcher::Mode;
use crate::pixels::composite;
use crate::pixels::composite_into;
use crate::pixels::fill_rect_alpha;
use crate::pixels::Paint;
use crate::pixels::Source;
use crate::theme::Colors;
use vstd::prelude::*;

verus! {

/// The four bytes that a pixmap of `tiny_skia` holds for every pixel after it was
/// filled with the colour that `Color::from_rgba8` makes of these components.
pub uninterp spec fn premultiplied(r: u8, g: u8, b: u8, a: u8) -> Seq<u8>;

/// Whether a frame of this size can be had: neither side is zero, a row takes no
/// more bytes than a signed 32-bit number counts, and the whole no more than one
/// allocation can hold.
pub open spec fn pixmap_fits(width: u32, height: u32) -> bool {
    &&& width > 0
    &&& height > 0
    &&& 4 * width <= i32::MAX
    &&& 4 * width * height <= isize::MAX
}

/// A frame of `width` by `height` pixels, every pixel the four bytes `pixel`.
pub open spec fn solid_frame(width: u32, height: u32, pixel: Seq<u8>) -> Seq<u8> {
    Seq::new((4 * width * height) as nat, |i: int| pixel[i % 4])
}

/// The pixmap of `tiny_skia`: a buffer of premultiplied RGBA pixels.
#[verifier::external_type_specification]
#[verifier::external_body]
pub struct ExPixmap(tiny_skia::Pixmap);

/// The bytes that a pixmap holds, pixel by pixel and row by row.
pub uninterp spec fn pixmap_bytes(pixmap: tiny_skia::Pixmap) -> Seq<u8>;

/// Calls `Pixmap::new`: allocates a pixmap. For a size whose bytes one allocation
/// can hold, it gives a pixmap exactly where neither side is zero and four times
/// the width fits a signed 32-bit number; the pixmap holds four bytes for every
/// pixel.
#[verifier::external_body]
pub(crate) fn pixmap_new(width: u32, height: u32) -> (out: Option<tiny_skia::Pixmap>)
    requires
        4 * width * height <= isize::MAX,
    ensures
        out is Some <==> pixmap_fits(width, height),
        out is Some ==> pixmap_bytes(out->0).len() == 4 * width * height,
{
    tiny_skia::Pixmap::new(width, height)
}

/// Calls `Pixmap::fill` with the colour that `Color::from_rgba8` makes of the
/// components: every pixel of the pixmap gets the same four bytes, those of the
/// premultiplied colour, which the contract only names.
#[verifier::external_body]
pub(crate) fn pixmap_fill(pixmap: &mut tiny_skia::Pixmap, r: u8, g: u8, b: u8, a: u8)
    ensures
        pixmap_bytes(*final(pixmap)) == Seq::new(
            pixmap_bytes(*old(pixmap)).len(),
            |i: int| premultiplied(r, g, b, a)[i % 4],
        ),
{
    pixmap.fill(tiny_skia::Color::from_rgba8(r, g, b, a))
}

/// Calls `Pixmap::take`: hands out the bytes of the pixmap.
#[verifier::external_body]
pub(crate) fn pixmap_take(pixmap: tiny_skia::Pixmap) -> (out: Vec<u8>)
    ensures
        out@ == pixmap_bytes(pixmap),
{
    pixmap.take()
}

/// A frame of `width` by `height` pixels, every pixel the premultiplied colour of
/// the components, or `None` where no pixmap of that size can be had.
pub fn backdrop(width: u32, height: u32, r: u8, g: u8, b: u8, a: u8) -> (out: Option<Vec<u8>>)
    ensures
        out is Some <==> pixmap_fits(width, height),
        out is Some ==> out->0@ == solid_frame(width, height, premultiplied(r, g, b, a)),
{
    let row: u64 = 4 * width as u64;
    assert(row as int * height as int <= 0x4_0000_0000 * 0x1_0000_0000) by (nonlinear_arith)
        requires
            0 <= row <= 0x4_0000_0000,
            0 <= height <= 0x1_0000_0000,
    ;
    if row as u128 * height as u128 > isize::MAX as u128 {
        return None;
    }
    match pixmap_new(width, height) {
        Some(mut pixmap) => {
            pixmap_fill(&mut pixmap, r, g, b, a);
            let bytes = pixmap_take(pixmap);
            assert(bytes@ =~= solid_frame(width, height, premultiplied(r, g, b, a)));
            Some(bytes)
        },
        None => None,
    }
}

/// What a glyph image holds.
#[derive(Clone, Copy, Debug, PartialEq, Eq, Structural)]
pub enum Content {
    /// One byte of coverage for every pixel.
    Mask,
    /// Four bytes of colour for every pixel.
    Color,
    /// Coverage for every colour channel; such glyphs are not drawn.
    SubpixelMask,
}

/// The image of one glyph, `width` by `height` pixels, placed relative to the
/// origin of its text.
pub struct Glyph {
    pub x: i32,
    pub y: i32,
    pub width: u32,
    pub height: u32,
    pub content: Content,
    pub data: Vec<u8>,
}

/// One shaped line of text.
pub struct Line {
    /// Width of the line where nothing limits it, in pixels.
    pub width: u32,
    /// The glyph images of the line as it was shaped for its place.
    pub glyphs: Vec<Glyph>,
}

/// The text of one cell.
pub struct CellText {
    /// The name of the item.
    pub name: Line,
    /// The description of the item; it is drawn only where descriptions are.
    pub comment: Line,
}

/// The sizes of the two fonts, in pixels.
#[derive(Clone, Copy, Debug)]
pub struct Fonts {
    pub font_size: u32,
    pub comment_font_size: u32,
}

/// Half of `a`, rounded towards zero.
pub open spec fn half(a: int) -> int {
    if a >= 0 {
        a / 2
    } else {
        -((-a) / 2)
    }
}

/// `v` brought into the range of a signed 32-bit number.
pub open spec fn clamped(v: int) -> int {
    if v < i32::MIN {
        i32::MIN as int
    } else if v > i32::MAX {
        i32::MAX as int
    } else {
        v
    }
}

/// `a` less `b`, and zero where `b` is the greater.
pub open spec fn less(a: int, b: int) -> int {
    if a >= b {
        a - b
    } else {
        0
    }
}

/// The frame after glyph `g` of a text at `(x, y)` was drawn: a mask is blended
/// with `color`, a coloured glyph is laid over as it is.
pub open spec fn glyph_drawn(
    data: Seq<u8>,
    pw: u32,
    ph: u32,
    g: Glyph,
    x: int,
    y: int,
    color: [u8; 3],
) -> Seq<u8> {
    match g.content {
        Content::Mask => composite(
            data,
            pw as int,
            ph as int,
            x + g.x,
            y + g.y,
            g.width as int,
            g.height as int,
            Paint::Mask(g.data@, color),
        ),
        Content::Color => composite(
            data,
            pw as int,
            ph as int,
            x + g.x,
            y + g.y,
            g.width as int,
            g.height as int,
            Paint::Glyph(g.data@),
        ),
        Content::SubpixelMask => data,
    }
}

/// The frame after the glyphs of a text at `(x, y)` were drawn, one after the
/// other.
pub open spec fn text_drawn(
    data: Seq<u8>,
    pw: u32,
    ph: u32,
    glyphs: Seq<Glyph>,
    x: int,
    y: int,
    color: [u8; 3],
) -> Seq<u8>
    decreases glyphs.len(),
{
    if glyphs.len() == 0 {
        data
    } else {
        glyph_drawn(
            text_drawn(data, pw, ph, glyphs.drop_last(), x, y, color),
            pw,
            ph,
            glyphs.last(),
            x,
            y,
            color,
        )
    }
}

/// Draws the glyphs of a shaped text whose origin is `(x, y)`.
pub fn render_text(
    data: &mut [u8],
    pw: u32,
    ph: u32,
    glyphs: &[Glyph],
    x: i32,
    y: i32,
    color: [u8; 3],
)
    ensures
        final(data)@ == text_drawn(old(data)@, pw, ph, glyphs@, x as int, y as int, color),
{
    let mut i: usize = 0;
    assert(glyphs@.take(0) == Seq::<Glyph>::empty());
    while i < glyphs.len()
        invariant
            i <= glyphs.len(),
            data@ == text_drawn(old(data)@, pw, ph, glyphs@.take(i as int), x as int, y as int, color),
        decreases glyphs.len() - i,
    {
        let g = &glyphs[i];
        assert(glyphs@.take(i + 1).drop_last() == glyphs@.take(i as int));
        let x0: i64 = x as i64 + g.x as i64;
        let y0: i64 = y as i64 + g.y as i64;
        match g.content {
            Content::Mask => {
                composite_into(
                    data,
                    pw,
                    ph,
                    x0,
                    y0,
                    g.width as i64,
                    g.height as i64,
                    Source::Mask(g.data.as_slice(), color),
                );
            },
            Content::Color => {
                composite_into(
                    data,
                    pw,
                    ph,
                    x0,
                    y0,
                    g.width as i64,
                    g.height as i64,
                    Source::Glyph(g.data.as_slice()),
                );
            },
            Content::SubpixelMask => {},
        }
        i += 1;
    }
    assert(glyphs@.take(glyphs@.len() as int) == glyphs@);
}

/// The frame after the search bar, its lower edge and the border of the window
/// were drawn, all at the alpha of the background.
pub open spec fn chrome(data: Seq<u8>, width: u32, height: u32, colors: Colors) -> Seq<u8> {
    let w = width as int;
    let h = height as int;
    let a = colors.background_alpha;
    let d1 = composite(data, w, h, 0, 0, w, BAR_H as int, Paint::Tint(colors.bar_bg, a));
    let d2 = composite(d1, w, h, 0, BAR_H - 2, w, 2, Paint::Tint(colors.bar_border, a));
    let d3 = composite(d2, w, h, 0, 0, w, 2, Paint::Tint(colors.border, a));
    let d4 = composite(d3, w, h, 0, less(h, 2), w, 2, Paint::Tint(colors.border, a));
    let d5 = composite(d4, w, h, 0, 0, 2, h, Paint::Tint(colors.border, a));
    composite(d5, w, h, less(w, 2), 0, 2, h, Paint::Tint(colors.border, a))
}

/// Draws the search bar, its lower edge and the border of the window.
pub fn draw_chrome(data: &mut [u8], width: u32, height: u32, colors: &Colors)
    ensures
        final(data)@ == chrome(old(data)@, width, height, *colors),
{
    let a = colors.background_alpha;
    fill_rect_alpha(data, width, height, 0, 0, width, BAR_H, colors.bar_bg, a);
    fill_rect_alpha(data, width, height, 0, BAR_H - 2, width, 2, colors.bar_border, a);
    fill_rect_alpha(data, width, height, 0, 0, width, 2, colors.border, a);
    let bottom: u32 = if height >= 2 { height - 2 } else { 0 };
    fill_rect_alpha(data, width, height, 0, bottom, width, 2, colors.border, a);
    fill_rect_alpha(data, width, height, 0, 0, 2, height, colors.border, a);
    let right: u32 = if width >= 2 { width - 2 } else { 0 };
    fill_rect_alpha(data, width, height, right, 0, 2, height, colors.border, a);
}

impl LauncherView {
    /// What stands left of the text in a cell: padding, and the icon with its
    /// padding where icons are drawn.
    pub open spec fn icon_pad(self) -> int {
        if self.settings.mode == Mode::Drun {
            PAD + self.settings.icon_size + PAD
        } else {
            PAD as int
        }
    }

    /// Whether the description of `item` is drawn beside its name.
    pub open spec fn shows_comment(self, item: crate::items::Item) -> bool {
        self.settings.show_comments && item.comment@.len() > 0
    }

    /// The width that the name of `item` may take: the cell right of the icon, and
    /// half of that where the description is drawn too.
    pub open spec fn name_limit(self, item: crate::items::Item) -> int {
        let room = self.grid().col_w() - self.icon_pad();
        if self.shows_comment(item) {
            half(room)
        } else if room >= 0 {
            room
        } else {
            0
        }
    }

    /// Where the description of `item` begins, measured from the left edge of the
    /// text, for a name that is `name_w` wide.
    pub open spec fn comment_shift(self, item: crate::items::Item, name_w: u32) -> int {
        (if name_w <= self.name_limit(item) {
            name_w as int
        } else {
            self.name_limit(item)
        }) + 12
    }

    /// The width that the description of `item` may take beside a name that is
    /// `name_w` wide.
    pub open spec fn comment_limit(self, item: crate::items::Item, name_w: u32) -> int {
        let room = self.grid().col_w() - self.icon_pad() - self.comment_shift(item, name_w) - PAD;
        if room >= 0 {
            room
        } else {
            0
        }
    }

    /// The room for the description of `item` beside a name that is `name_w` wide,
    /// where the description is drawn: it is shown and has more than twenty pixels
    /// of room.
    pub open spec fn comment_room(self, item: crate::items::Item, name_w: u32) -> Option<int> {
        if self.shows_comment(item) && self.comment_limit(item, name_w) > 20 {
            Some(self.comment_limit(item, name_w))
        } else {
            None
        }
    }

    /// The text of the search bar: the query, and a placeholder while it is empty.
    pub open spec fn bar_text(self) -> Seq<char> {
        if self.query.len() == 0 {
            "Search..."@
        } else {
            self.query
        }
    }

    /// The first index of the filtered view past the window.
    pub open spec fn window_end(self) -> int {
        if self.scroll + self.grid().visible() < self.filtered.len() {
            self.scroll + self.grid().visible()
        } else {
            self.filtered.len() as int
        }
    }

    /// The frame after the cell in slot `slot` of the window was drawn: the
    /// highlight of the selected or hovered item, the icon, the name, and the
    /// description where it is shown and has more than twenty pixels of room.
    pub open spec fn cell_drawn(
        self,
        data: Seq<u8>,
        colors: Colors,
        fonts: Fonts,
        texts: Seq<CellText>,
        slot: int,
    ) -> Seq<u8> {
        let g = self.grid();
        let w = self.width as int;
        let h = self.height as int;
        let i = self.scroll + slot;
        let item = self.items[self.filtered[i] as int];
        let cx = g.cell_left(slot % g.ecols());
        let cy = g.cell_top(slot / g.ecols());
        let row_h = g.row_h();
        let cell_h = if row_h <= u32::MAX {
            row_h
        } else {
            u32::MAX as int
        };
        let d1 = if i == self.selected {
            composite(
                data,
                w,
                h,
                cx,
                cy,
                g.col_w(),
                cell_h,
                Paint::Tint(colors.selection, colors.selection_alpha),
            )
        } else if self.hover == Some(i as usize) {
            composite(
                data,
                w,
                h,
                cx,
                cy,
                g.col_w(),
                cell_h,
                Paint::Tint(colors.selection, colors.selection_alpha / 2),
            )
        } else {
            data
        };
        let d2 = if self.settings.mode == Mode::Drun && item.icon_data is Some {
            composite(
                d1,
                w,
                h,
                cx + PAD,
                cy + half(row_h - item.icon_h),
                item.icon_w as int,
                item.icon_h as int,
                Paint::Image(item.icon_data->0@),
            )
        } else {
            d1
        };
        if slot < texts.len() {
            let text_x = cx + self.icon_pad();
            let d3 = text_drawn(
                d2,
                self.width,
                self.height,
                texts[slot].name.glyphs@,
                clamped(text_x),
                clamped(cy + (row_h + fonts.font_size) / 2),
                colors.text,
            );
            if self.comment_room(item, texts[slot].name.width) is Some {
                text_drawn(
                    d3,
                    self.width,
                    self.height,
                    texts[slot].comment.glyphs@,
                    clamped(text_x + self.comment_shift(item, texts[slot].name.width)),
                    clamped(cy + (row_h + fonts.comment_font_size) / 2),
                    colors.text_comment,
                )
            } else {
                d3
            }
        } else {
            d2
        }
    }

    /// The frame after the cells in the first `count` slots of the window were
    /// drawn, in their order.
    pub open spec fn cells_drawn(
        self,
        data: Seq<u8>,
        colors: Colors,
        fonts: Fonts,
        texts: Seq<CellText>,
        count: int,
    ) -> Seq<u8>
        decreases count,
    {
        if count <= 0 {
            data
        } else {
            self.cell_drawn(
                self.cells_drawn(data, colors, fonts, texts, count - 1),
                colors,
                fonts,
                texts,
                count - 1,
            )
        }
    }

    /// The frame after everything was drawn over `data`: the bar and the border,
    /// the text of the bar in the middle of it (in the colour of a placeholder
    /// while the query is empty), and the cells of the window.
    pub open spec fn drawn_over(
        self,
        data: Seq<u8>,
        colors: Colors,
        fonts: Fonts,
        bar: Line,
        texts: Seq<CellText>,
    ) -> Seq<u8> {
        let d1 = chrome(data, self.width, self.height, colors);
        let d2 = text_drawn(
            d1,
            self.width,
            self.height,
            bar.glyphs@,
            half(self.width - bar.width),
            clamped((BAR_H + fonts.font_size) / 2),
            if self.query.len() == 0 {
                colors.text_placeholder
            } else {
                colors.text
            },
        );
        self.cells_drawn(d2, colors, fonts, texts, self.window_end() - self.scroll)
    }

    /// The frame of the launcher, where a frame of its size can be had: the
    /// background, and everything drawn over it.
    pub open spec fn frame(self, colors: Colors, fonts: Fonts, bar: Line, texts: Seq<CellText>) -> Option<
        Seq<u8>,
    > {
        if pixmap_fits(self.width, self.height) {
            Some(
                self.drawn_over(
                    solid_frame(
                        self.width,
                        self.height,
                        premultiplied(
                            colors.background[0],
                            colors.background[1],
                            colors.background[2],
                            colors.background_alpha,
                        ),
                    ),
                    colors,
                    fonts,
                    bar,
                    texts,
                ),
            )
        } else {
            None
        }
    }
}

fn halve(a: i64) -> (r: i64)
    requires
        -0x4000_0000_0000_0000 <= a <= 0x4000_0000_0000_0000,
    ensures
        r == half(a as int),
{
    if a >= 0 {
        a / 2
    } else {
        -((-a) / 2)
    }
}

fn clamp(v: i64) -> (r: i32)
    ensures
        r == clamped(v as int),
{
    if v < i32::MIN as i64 {
        i32::MIN
    } else if v > i32::MAX as i64 {
        i32::MAX
    } else {
        v as i32
    }
}

impl Launcher {
    /// What stands left of the text in a cell.
    pub fn icon_pad(&self) -> (pad: u64)
        ensures
            pad == self@.icon_pad(),
    {
        match self.settings.mode {
            Mode::Drun => PAD as u64 + self.settings.icon_size as u64 + PAD as u64,
            Mode::Dmenu => PAD as u64,
        }
    }

    /// The width that the name of item `at` may take.
    pub fn name_limit(&self, at: usize) -> (limit: i64)
        requires
            at < self.items@.len(),
        ensures
            limit == self@.name_limit(self.items@[at as int]),
            -0x2_0000_0000 <= limit <= 0x1_0000_0000,
    {
        let room: i64 = self.col_width() as i64 - self.icon_pad() as i64;
        if self.settings.show_comments && !self.items[at].comment.as_str().is_empty() {
            halve(room)
        } else if room >= 0 {
            room
        } else {
            0
        }
    }

    /// Where the description of item `at` begins, measured from the left edge of
    /// the text, for a name that is `name_w` wide.
    pub fn comment_shift(&self, at: usize, name_w: u32) -> (shift: i64)
        requires
            at < self.items@.len(),
        ensures
            shift == self@.comment_shift(self.items@[at as int], name_w),
            -0x2_0000_0000 <= shift <= 0x2_0000_0000,
    {
        let limit = self.name_limit(at);
        (if name_w as i64 <= limit { name_w as i64 } else { limit }) + 12
    }

    /// The width that the description of item `at` may take beside a name that is
    /// `name_w` wide.
    pub fn comment_limit(&self, at: usize, name_w: u32) -> (limit: i64)
        requires
            at < self.items@.len(),
        ensures
            limit == self@.comment_limit(self.items@[at as int], name_w),
    {
        let room: i64 = self.col_width() as i64 - self.icon_pad() as i64 - self.comment_shift(
            at,
            name_w,
        ) - PAD as i64;
        if room >= 0 {
            room
        } else {
            0
        }
    }

    /// The room for the description of item `at` beside a name that is `name_w`
    /// wide, or `None` where the description is not drawn.
    pub fn comment_room(&self, at: usize, name_w: u32) -> (room: Option<i64>)
        requires
            at < self.items@.len(),
        ensures
            match room {
                Some(r) => self@.comment_room(self.items@[at as int], name_w) == Some(r as int),
                None => self@.comment_room(self.items@[at as int], name_w) is None,
            },
    {
        if self.settings.show_comments && !self.items[at].comment.as_str().is_empty() {
            let limit = self.comment_limit(at, name_w);
            if limit > 20 {
                return Some(limit);
            }
        }
        None
    }

    /// The text of the search bar.
    pub fn bar_text(&self) -> (text: String)
        ensures
            text@ == self@.bar_text(),
    {
        if self.input.as_str().is_empty() {
            "Search...".to_owned()
        } else {
            self.input.clone()
        }
    }

    /// The first index of the filtered view past the window.
    pub fn window_end(&self) -> (end: usize)
        requires
            self@.wf(),
        ensures
            end == self@.window_end(),
            self.scroll_offset <= end <= self.filtered@.len(),
            end - self.scroll_offset <= self@.grid().visible(),
    {
        let visible = self.grid().visible_count();
        let n = self.filtered.len();
        if (self.scroll_offset as u128) + visible < n as u128 {
            self.scroll_offset + visible as usize
        } else {
            n
        }
    }

    /// The items of the window, as indices into the items, in the order of their
    /// cells; none where the state is not well-formed.
    pub fn window_items(&self) -> (shown: Vec<usize>)
        ensures
            self@.wf() ==> shown@ == self@.filtered.subrange(
                self@.scroll as int,
                self@.window_end(),
            ),
            !self@.wf() ==> shown@.len() == 0,
            forall|k: int| 0 <= k < shown@.len() ==> (#[trigger] shown@[k]) < self.items@.len(),
    {
        let mut shown: Vec<usize> = Vec::new();
        if !self.is_well_formed() {
            return shown;
        }
        proof {
            self@.lemma_filtered_sound();
        }
        let end = self.window_end();
        let mut i: usize = self.scroll_offset;
        assert(self@.filtered.subrange(self@.scroll as int, i as int) =~= shown@);
        while i < end
            invariant
                self.scroll_offset <= i <= end <= self.filtered@.len(),
                shown@ == self.filtered@.subrange(self.scroll_offset as int, i as int),
                forall|k: int|
                    0 <= k < self.filtered@.len() ==> (#[trigger] self.filtered@[k])
                        < self.items@.len(),
            decreases end - i,
        {
            shown.push(self.filtered[i]);
            i += 1;
            assert(self.filtered@.subrange(self.scroll_offset as int, i as int)
                =~= self.filtered@.subrange(self.scroll_offset as int, i - 1).push(
                self.filtered@[i - 1],
            ));
        }
        shown
    }

    /// Draws the cell in slot `slot` of the window.
    pub fn draw_cell(
        &self,
        data: &mut [u8],
        colors: &Colors,
        fonts: &Fonts,
        texts: &Vec<CellText>,
        slot: usize,
    )
        requires
            self@.wf(),
            self.scroll_offset + slot < self@.window_end(),
        ensures
            final(data)@ == self@.cell_drawn(old(data)@, *colors, *fonts, texts@, slot as int),
    {
        proof {
            self@.lemma_filtered_sound();
            self@.grid().lemma_columns_fit();
            self@.grid().lemma_rows_fit();
        }
        let g = self.grid();
        let n: usize = self.filtered.len();
        let i = self.scroll_offset + slot;
        let at = self.filtered[i];
        let (cx, cy) = g.cell_origin(slot);
        let col_w = g.col_width();
        let row_h = g.row_height();
        let cell_h: u32 = if row_h <= u32::MAX as u64 { row_h as u32 } else { u32::MAX };
        if i == self.selected {
            fill_rect_alpha(
                data,
                self.width,
                self.height,
                cx,
                cy,
                col_w,
                cell_h,
                colors.selection,
                colors.selection_alpha,
            );
        } else {
            let hovered = match self.hover_index {
                Some(hv) => hv == i,
                None => false,
            };
            if hovered {
                fill_rect_alpha(
                    data,
                    self.width,
                    self.height,
                    cx,
                    cy,
                    col_w,
                    cell_h,
                    colors.selection,
                    colors.selection_alpha / 2,
                );
            }
        }
        let item = &self.items[at];
        match self.settings.mode {
            Mode::Drun => {
                match &item.icon_data {
                    Some(icon) => {
                        composite_into(
                            data,
                            self.width,
                            self.height,
                            cx as i64 + PAD as i64,
                            cy as i64 + halve(row_h as i64 - item.icon_h as i64),
                            item.icon_w as i64,
                            item.icon_h as i64,
                            Source::Image(icon.as_slice()),
                        );
                    },
                    None => {},
                }
            },
            Mode::Dmenu => {},
        }
        if slot < texts.len() {
            let text_x: i64 = cx as i64 + self.icon_pad() as i64;
            let name_w = texts[slot].name.width;
            render_text(
                data,
                self.width,
                self.height,
                texts[slot].name.glyphs.as_slice(),
                clamp(text_x),
                clamp(cy as i64 + ((row_h + fonts.font_size as u64) / 2) as i64),
                colors.text,
            );
            if self.comment_room(at, name_w).is_some() {
                render_text(
                    data,
                    self.width,
                    self.height,
                    texts[slot].comment.glyphs.as_slice(),
                    clamp(text_x + self.comment_shift(at, name_w)),
                    clamp(cy as i64 + ((row_h + fonts.comment_font_size as u64) / 2) as i64),
                    colors.text_comment,
                );
            }
        }
    }

    /// Draws the frame as `draw` does, where the state is well-formed; gives `None`
    /// where it is not, and where no frame of the size of the viewport can be had.
    pub fn try_draw(&self, colors: &Colors, fonts: &Fonts, bar: &Line, texts: &Vec<CellText>) -> (frame:
        Option<Vec<u8>>)
        ensures
            match frame {
                Some(f) => self@.wf() && self@.frame(*colors, *fonts, *bar, texts@) == Some(f@),
                None => !self@.wf() || self@.frame(*colors, *fonts, *bar, texts@) is None,
            },
    {
        if self.is_well_formed() {
            self.draw(colors, fonts, bar, texts)
        } else {
            None
        }
    }

    /// Draws the frame of the launcher: RGBA bytes, row by row. `bar` is the text
    /// of the search bar, `texts` the texts of the cells of the window in their
    /// order; a cell without a text is drawn without. Gives `None` where no frame
    /// of the size of the viewport can be had.
    pub fn draw(&self, colors: &Colors, fonts: &Fonts, bar: &Line, texts: &Vec<CellText>) -> (frame:
        Option<Vec<u8>>)
        requires
            self@.wf(),
        ensures
            match frame {
                Some(f) => self@.frame(*colors, *fonts, *bar, texts@) == Some(f@),
                None => self@.frame(*colors, *fonts, *bar, texts@) is None,
            },
    {
        let bg = colors.background;
        let mut frame = match backdrop(
            self.width,
            self.height,
            bg[0],
            bg[1],
            bg[2],
            colors.background_alpha,
        ) {
            Some(f) => f,
            None => {
                return None;
            },
        };
        let data = frame.as_mut_slice();
        draw_chrome(data, self.width, self.height, colors);
        let bar_x = halve(self.width as i64 - bar.width as i64);
        let bar_y = clamp(((BAR_H as u64 + fonts.font_size as u64) / 2) as i64);
        let bar_color = if self.input.as_str().is_empty() { colors.text_placeholder } else { colors.text };
        render_text(
            data,
            self.width,
            self.height,
            bar.glyphs.as_slice(),
            bar_x as i32,
            bar_y,
            bar_color,
        );
        let count = self.window_end() - self.scroll_offset;
        let ghost start = data@;
        let mut slot: usize = 0;
        while slot < count
            invariant
                slot <= count,
                self@.wf(),
                count == self@.window_end() - self.scroll_offset,
                data@ == self@.cells_drawn(start, *colors, *fonts, texts@, slot as int),
            decreases count - slot,
        {
            self.draw_cell(data, colors, fonts, texts, slot);
            slot += 1;
        }
        Some(frame)
    }
}

} // verus!
