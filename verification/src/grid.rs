//! The grid layout: one geometry for drawing the cells and for finding the cell
//! under the pointer.
//!
//! The layout is a function of the viewport, the configured column count, the icon
//! size, the number of filtered items and the scroll offset. The search bar takes
//! the top `BAR_H` rows of the viewport; the cells follow below it, row by row.

use vstd::arithmetic::div_mod::lemma_fundamental_div_mod;
use vstd::arithmetic::div_mod::lemma_fundamental_div_mod_converse;
use vstd::arithmetic::div_mod::lemma_mod_bound;
use vstd::prelude::*;

verus! {

/// Height of the search bar.
pub const BAR_H: u32 = 50;

/// Padding around icons and text.
pub const PAD: u32 = 8;

/// What a row is higher than its icon.
pub const ROW_PAD: u32 = 8;

/// The inputs of the layout.
#[derive(Clone, Copy, Debug)]
pub struct Grid {
    /// Viewport width in pixels.
    pub width: u32,
    /// Viewport height in pixels.
    pub height: u32,
    /// Configured column count.
    pub cols: usize,
    /// Icon size in pixels.
    pub icon_size: u32,
    /// Number of items in the filtered view.
    pub count: usize,
    /// Index in the filtered view of the item in the first cell.
    pub scroll: usize,
}

impl Grid {
    /// Height of one row: the icon and its padding.
    pub open spec fn row_h(self) -> int {
        self.icon_size + ROW_PAD
    }

    /// Rows that fit below the search bar, and one where none fits.
    pub open spec fn rows(self) -> int {
        if self.height - BAR_H >= self.row_h() {
            (self.height - BAR_H) / self.row_h()
        } else {
            1
        }
    }

    /// The configured column count, and one where none is configured.
    pub open spec fn base_cols(self) -> int {
        if self.cols == 0 {
            1
        } else {
            self.cols as int
        }
    }

    /// Columns in use: no more than are configured, no more than there are items,
    /// and the configured count where there is no item.
    pub open spec fn ecols(self) -> int {
        if self.count == 0 || self.count >= self.base_cols() {
            self.base_cols()
        } else {
            self.count as int
        }
    }

    /// Width of one column: the viewport shared among the configured columns.
    pub open spec fn col_w(self) -> int {
        self.width as int / self.base_cols()
    }

    /// What is left of the first column when the columns in use are centred.
    pub open spec fn x_off(self) -> int {
        (self.width - self.ecols() * self.col_w()) / 2
    }

    /// Cells in the window: the visible rows times the columns in use.
    pub open spec fn visible(self) -> int {
        self.rows() * self.ecols()
    }

    /// Left edge of the cells of column `col`.
    pub open spec fn cell_left(self, col: int) -> int {
        self.x_off() + col * self.col_w()
    }

    /// Upper edge of the cells of row `row`.
    pub open spec fn cell_top(self, row: int) -> int {
        BAR_H + row * self.row_h()
    }

    /// The item under the point `(x, y)`, as an index into the filtered view. There
    /// is none above the cells, left of them, past the last column in use or past
    /// the last item.
    pub open spec fn hit(self, x: int, y: int) -> Option<usize> {
        if y < BAR_H || x < self.x_off() || self.col_w() == 0 {
            None
        } else {
            let col = (x - self.x_off()) / self.col_w();
            let row = (y - BAR_H) / self.row_h();
            let idx = self.scroll + row * self.ecols() + col;
            if col < self.ecols() && idx < self.count {
                Some(idx as usize)
            } else {
                None
            }
        }
    }

    /// The columns in use, each as wide as a column, fit in the viewport.
    pub proof fn lemma_columns_fit(self)
        ensures
            1 <= self.ecols() <= self.base_cols(),
            self.ecols() <= self.cols || self.cols == 0,
            0 <= self.col_w() <= self.width,
            0 <= self.ecols() * self.col_w() <= self.width,
            0 <= self.x_off() <= self.width,
            self.x_off() + self.ecols() * self.col_w() <= self.width,
    {
        let c = self.base_cols();
        let e = self.ecols();
        let w = self.width as int;
        lemma_fundamental_div_mod(w, c);
        lemma_mod_bound(w, c);
        assert(0 <= w / c <= w && 0 <= e * (w / c) <= c * (w / c)) by (nonlinear_arith)
            requires
                1 <= e <= c,
                0 <= w,
                w == c * (w / c) + w % c,
                0 <= w % c < c,
        ;
    }

    /// The window holds at least one cell, and its rows fit below the search bar
    /// wherever one row fits.
    pub proof fn lemma_rows_fit(self)
        ensures
            8 <= self.row_h(),
            1 <= self.rows() <= 0x2000_0000,
            1 <= self.visible(),
            self.rows() == 1 || BAR_H + self.rows() * self.row_h() <= self.height,
    {
        let r = self.row_h();
        let a = self.height - BAR_H;
        self.lemma_columns_fit();
        if a >= r {
            lemma_fundamental_div_mod(a, r);
            lemma_mod_bound(a, r);
            assert(1 <= a / r && (a / r) * r <= a && a / r <= 0x2000_0000) by (nonlinear_arith)
                requires
                    8 <= r <= a,
                    a <= 0xffff_ffff,
                    a == r * (a / r) + a % r,
                    0 <= a % r < r,
            ;
        }
        assert(1 <= self.rows() * self.ecols()) by (nonlinear_arith)
            requires
                1 <= self.rows(),
                1 <= self.ecols(),
        ;
    }

    /// Without items the configured columns are in use, and no point is a hit.
    pub proof fn lemma_empty_grid(self, x: int, y: int)
        requires
            self.count == 0,
        ensures
            self.ecols() == self.base_cols(),
            self.hit(x, y) is None,
    {
        self.lemma_columns_fit();
        self.lemma_rows_fit();
        if y >= BAR_H && x >= self.x_off() && self.col_w() > 0 {
            let col = (x - self.x_off()) / self.col_w();
            let row = (y - BAR_H) / self.row_h();
            lemma_fundamental_div_mod(x - self.x_off(), self.col_w());
            lemma_mod_bound(x - self.x_off(), self.col_w());
            lemma_fundamental_div_mod(y - BAR_H, self.row_h());
            lemma_mod_bound(y - BAR_H, self.row_h());
            assert(0 <= col) by (nonlinear_arith)
                requires
                    0 <= x - self.x_off(),
                    0 < self.col_w(),
                    x - self.x_off() == self.col_w() * col + (x - self.x_off()) % self.col_w(),
                    0 <= (x - self.x_off()) % self.col_w() < self.col_w(),
            ;
            assert(0 <= row) by (nonlinear_arith)
                requires
                    0 <= y - BAR_H,
                    0 < self.row_h(),
                    y - BAR_H == self.row_h() * row + (y - BAR_H) % self.row_h(),
                    0 <= (y - BAR_H) % self.row_h() < self.row_h(),
            ;
            assert(0 <= row * self.ecols()) by (nonlinear_arith)
                requires
                    0 <= row,
                    0 <= self.ecols(),
            ;
        }
    }

    /// A point inside the cell of row `row` and column `col` is a hit on the item
    /// of that cell: drawing and hit-testing agree.
    pub proof fn lemma_cell_hit(self, row: int, col: int, x: int, y: int)
        requires
            0 <= row,
            0 <= col < self.ecols(),
            self.scroll + row * self.ecols() + col < self.count,
            self.cell_left(col) <= x < self.cell_left(col) + self.col_w(),
            self.cell_top(row) <= y < self.cell_top(row) + self.row_h(),
        ensures
            self.hit(x, y) == Some((self.scroll + row * self.ecols() + col) as usize),
    {
        self.lemma_columns_fit();
        let cw = self.col_w();
        let rh = self.row_h();
        assert(0 <= col * cw && 0 <= row * rh && 0 <= row * self.ecols()) by (nonlinear_arith)
            requires
                0 <= col,
                0 <= cw,
                0 <= row,
                0 <= rh,
                0 <= self.ecols(),
        ;
        assert(cw * col == col * cw && rh * row == row * rh) by (nonlinear_arith);
        lemma_fundamental_div_mod_converse(x - self.x_off(), cw, col, x - self.x_off() - col * cw);
        lemma_fundamental_div_mod_converse(y - BAR_H, rh, row, y - BAR_H - row * rh);
    }

    /// A point inside the cell that is drawn for slot `slot` of the window is a
    /// hit on the item of that slot.
    pub proof fn lemma_slot_hit(self, slot: int, x: int, y: int)
        requires
            0 <= slot,
            self.scroll + slot < self.count,
            self.cell_left(slot % self.ecols()) <= x < self.cell_left(slot % self.ecols())
                + self.col_w(),
            self.cell_top(slot / self.ecols()) <= y < self.cell_top(slot / self.ecols())
                + self.row_h(),
        ensures
            self.hit(x, y) == Some((self.scroll + slot) as usize),
    {
        self.lemma_columns_fit();
        let e = self.ecols();
        lemma_fundamental_div_mod(slot, e);
        lemma_mod_bound(slot, e);
        assert(0 <= slot / e && (slot / e) * e == e * (slot / e)) by (nonlinear_arith)
            requires
                0 <= slot,
                1 <= e,
                slot == e * (slot / e) + slot % e,
                0 <= slot % e < e,
        ;
        self.lemma_cell_hit(slot / e, slot % e, x, y);
    }

    /// Height of one row.
    pub fn row_height(&self) -> (h: u64)
        ensures
            h == self.row_h(),
    {
        self.icon_size as u64 + ROW_PAD as u64
    }

    /// Number of visible rows; never less than one.
    pub fn visible_rows(&self) -> (rows: u64)
        ensures
            rows == self.rows(),
    {
        let row_h = self.row_height();
        if self.height >= BAR_H && (self.height - BAR_H) as u64 >= row_h {
            (self.height - BAR_H) as u64 / row_h
        } else {
            1
        }
    }

    /// Number of columns in use; never zero.
    pub fn effective_cols(&self) -> (cols: usize)
        ensures
            cols == self.ecols(),
    {
        let base: usize = if self.cols == 0 { 1 } else { self.cols };
        if self.count == 0 || self.count >= base {
            base
        } else {
            self.count
        }
    }

    /// Width of one column.
    pub fn col_width(&self) -> (w: u32)
        ensures
            w == self.col_w(),
    {
        proof {
            self.lemma_columns_fit();
        }
        let base: u64 = if self.cols == 0 { 1 } else { self.cols as u64 };
        (self.width as u64 / base) as u32
    }

    /// Distance of the first column from the left edge of the viewport.
    pub fn grid_x_offset(&self) -> (x: u32)
        ensures
            x == self.x_off(),
    {
        proof {
            self.lemma_columns_fit();
        }
        let used: u64 = self.effective_cols() as u64 * self.col_width() as u64;
        ((self.width as u64 - used) / 2) as u32
    }

    /// Number of cells in the window.
    pub fn visible_count(&self) -> (n: u128)
        ensures
            n == self.visible(),
            1 <= n < 0x1_0000_0000_0000_0000_0000_0000,
    {
        proof {
            self.lemma_rows_fit();
            assert(self.rows() * self.ecols() <= 0x2000_0000 * 0xffff_ffff_ffff_ffff) by (nonlinear_arith)
                requires
                    0 <= self.rows() <= 0x2000_0000,
                    0 <= self.ecols() <= 0xffff_ffff_ffff_ffff,
            ;
        }
        self.visible_rows() as u128 * self.effective_cols() as u128
    }

    /// Resolves a point of the viewport to the item drawn there.
    pub fn item_at_pos(&self, x: i32, y: i32) -> (hit: Option<usize>)
        ensures
            hit == self.hit(x as int, y as int),
    {
        proof {
            self.lemma_columns_fit();
            self.lemma_rows_fit();
        }
        if y < BAR_H as i32 {
            return None;
        }
        let x_off = self.grid_x_offset();
        if (x as i64) < x_off as i64 {
            return None;
        }
        let col_w = self.col_width();
        if col_w == 0 {
            return None;
        }
        let ecols = self.effective_cols();
        let col: u64 = (x as i64 - x_off as i64) as u64 / col_w as u64;
        if col >= ecols as u64 {
            return None;
        }
        let row: u64 = (y as i64 - BAR_H as i64) as u64 / self.row_height();
        assert(row <= 0x7fff_ffff) by {
            let a = y - BAR_H;
            let r = self.row_h();
            lemma_fundamental_div_mod(a, r);
            lemma_mod_bound(a, r);
            assert(a / r <= a) by (nonlinear_arith)
                requires
                    0 <= a,
                    8 <= r,
                    a == r * (a / r) + a % r,
                    0 <= a % r < r,
            ;
        }
        assert(row as int * ecols as int <= 0x7fff_ffff * 0xffff_ffff_ffff_ffff) by (nonlinear_arith)
            requires
                0 <= row <= 0x7fff_ffff,
                0 <= ecols <= 0xffff_ffff_ffff_ffff,
        ;
        let idx: u128 = self.scroll as u128 + row as u128 * ecols as u128 + col as u128;
        if idx < self.count as u128 {
            Some(idx as usize)
        } else {
            None
        }
    }

    /// Upper left corner of the cell that holds slot `slot` of the window, slots
    /// counted row by row from the first visible item.
    pub fn cell_origin(&self, slot: usize) -> (at: (u32, u32))
        requires
            slot < self.visible(),
        ensures
            at.0 == self.cell_left(slot as int % self.ecols()),
            at.1 == self.cell_top(slot as int / self.ecols()),
            at.0 + self.col_w() <= self.width,
            at.1 == BAR_H || at.1 + self.row_h() <= self.height,
    {
        let ecols = self.effective_cols();
        let col = slot % ecols;
        let row = slot / ecols;
        let col_w = self.col_width();
        let row_h = self.row_height();
        proof {
            self.lemma_columns_fit();
            self.lemma_rows_fit();
            let e = self.ecols();
            let s = slot as int;
            lemma_fundamental_div_mod(s, e);
            lemma_mod_bound(s, e);
            assert(0 <= s / e < self.rows()) by (nonlinear_arith)
                requires
                    0 <= s < self.rows() * e,
                    1 <= e,
                    s == e * (s / e) + s % e,
                    0 <= s % e < e,
            ;
            assert(0 <= (s % e) * self.col_w() && (s % e) * self.col_w() + self.col_w() <= e
                * self.col_w()) by (nonlinear_arith)
                requires
                    0 <= s % e < e,
                    0 <= self.col_w(),
            ;
            assert(0 <= (s / e) * self.row_h() && (s / e) * self.row_h() + self.row_h()
                <= self.rows() * self.row_h()) by (nonlinear_arith)
                requires
                    0 <= s / e < self.rows(),
                    0 <= self.row_h(),
            ;
        }
        let x: u64 = self.grid_x_offset() as u64 + col as u64 * col_w as u64;
        let y: u64 = BAR_H as u64 + row as u64 * row_h;
        (x as u32, y as u32)
    }
}

} // verus!
