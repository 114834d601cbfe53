//! Turning a canvas into text.
//!
//! The usual rendering shows each pixel block as the character that a glyph
//! table gives for it. The exact rendering shows the pixels themselves, two
//! pixel rows to a line, with half-block characters.

use vstd::prelude::*;
use vstd::string::StringExecFns;
use crate::canvas::Canvas;
use crate::canvas::CanvasView;
use crate::canvas::CharCoord;
use crate::canvas::Character;
use crate::font::looked_up;
use crate::font::BitmapFont;
use crate::text::decimal;
use crate::text::push_decimal;
use crate::text::trimmed;
use crate::text::trimmed_len;

verus! {

/// The character that stands for a cell: its text, or what the table gives
/// for its pixels.
pub open spec fn glyph(cell: Character, table: Seq<char>) -> char {
    match cell {
        Character::Text(c) => c,
        Character::Bitmap(block) => looked_up(table, block),
    }
}

/// The line that shows the footnote at position `index`: its number, counted
/// from one, in square brackets, then a colon, a space and the note.
pub open spec fn footnote_line(index: int, note: Seq<char>) -> Seq<char> {
    seq!['['] + decimal((index + 1) as nat) + seq![']', ':', ' '] + note + seq!['\n']
}

/// The character that shows two pixels, one above the other: a full block
/// where both are on, a half block where one is, a space where none is.
pub open spec fn block_glyph(upper: bool, lower: bool) -> char {
    if upper && lower {
        '\u{2588}'
    } else if upper {
        '\u{2580}'
    } else if lower {
        '\u{2584}'
    } else {
        ' '
    }
}

/// The number of lines of the exact rendering of a canvas with `rows` rows:
/// twice `rows`, and half of `rows + 1` more, rounded up.
pub open spec fn debug_height(rows: int) -> int {
    2 * rows + (rows + 1 + 1) / 2
}

impl CanvasView {
    /// The characters of row `row`, as far as its cells are written.
    pub open spec fn row_glyphs(self, table: Seq<char>, row: int) -> Seq<char> {
        let start = row * self.width;
        let end = if start + self.width <= self.cells.len() {
            start + self.width
        } else {
            self.cells.len() as int
        };
        Seq::new((end - start) as nat, |k: int| glyph(self.cells[start + k], table))
    }

    /// The first `count` lines of the rendering: each row without the
    /// whitespace at its end, followed by a line feed.
    pub open spec fn rendered_lines(self, table: Seq<char>, count: int) -> Seq<char>
        decreases count,
    {
        if count <= 0 {
            Seq::empty()
        } else {
            self.rendered_lines(table, count - 1) + trimmed(
                self.row_glyphs(table, count - 1),
            ).push('\n')
        }
    }

    /// The lines of the first `count` footnotes.
    pub open spec fn footnote_lines(self, count: int) -> Seq<char>
        decreases count,
    {
        if count <= 0 {
            Seq::empty()
        } else {
            self.footnote_lines(count - 1) + footnote_line(count - 1, self.footnotes[count - 1])
        }
    }

    /// What follows the rows: nothing without footnotes, else an empty line
    /// and the footnotes.
    pub open spec fn footnote_text(self) -> Seq<char> {
        if self.footnotes.len() == 0 {
            Seq::empty()
        } else {
            seq!['\n'] + self.footnote_lines(self.footnotes.len() as int)
        }
    }

    /// The rendering with a glyph table: one line for every row that is
    /// written in full, one more for the cells after them, be there any or
    /// not, and then the footnotes.
    pub open spec fn rendered(self, table: Seq<char>) -> Seq<char> {
        self.rendered_lines(table, (self.cells.len() / self.width) as int + 1) + self.footnote_text()
    }

    /// The character at column `x` of line `y` of the exact rendering. It
    /// shows the pixels `(x, 2 * y)` and `(x, 2 * y + 1)`, except in the
    /// middle column of a cell that holds text, on the line that shows the
    /// cell's middle pixel row: there it is the cell's character.
    pub open spec fn debug_glyph(self, x: int, y: int) -> char {
        let upper = 2 * y;
        let lower = 2 * y + 1;
        let labelled = x % 3 == 1 && (upper % 5 == 2 || lower % 5 == 2);
        let pixels = block_glyph(self.pixel(x, upper), self.pixel(x, lower));
        match self.cell(x / 3, upper / 5) {
            Character::Text(c) => if labelled {
                c
            } else {
                pixels
            },
            Character::Bitmap(_) => pixels,
        }
    }

    /// Line `y` of the exact rendering before it is trimmed: three
    /// characters for every column of the canvas.
    pub open spec fn debug_line(self, y: int) -> Seq<char> {
        Seq::new(3 * self.width, |x: int| self.debug_glyph(x, y))
    }

    /// The first `count` lines of the exact rendering: each without the
    /// whitespace at its end, followed by a line feed.
    pub open spec fn debug_lines(self, count: int) -> Seq<char>
        decreases count,
    {
        if count <= 0 {
            Seq::empty()
        } else {
            self.debug_lines(count - 1) + trimmed(self.debug_line(count - 1)).push('\n')
        }
    }

    /// The exact rendering.
    pub open spec fn debug_rendered(self) -> Seq<char> {
        self.debug_lines(debug_height(self.rows()))
    }
}

/// Appends `line`, without the whitespace at its end, and a line feed.
fn push_line(out: &mut String, line: &Vec<char>)
    ensures
        final(out)@ == old(out)@ + trimmed(line@).push('\n'),
{
    let len = trimmed_len(line);
    let mut i: usize = 0;
    while i < len
        invariant
            i <= len <= line@.len(),
            out@ == old(out)@ + line@.subrange(0, i as int),
        decreases len - i,
    {
        out.push(line[i]);
        assert(out@ =~= old(out)@ + line@.subrange(0, i + 1));
        i = i + 1;
    }
    out.push('\n');
    assert(out@ =~= old(out)@ + trimmed(line@).push('\n'));
}

impl Canvas {
    /// Renders to a string with a given font. Every line ends in a line feed
    /// and has no whitespace before it.
    pub fn render(&self, font: &BitmapFont) -> (text: String)
        ensures
            text@ == self@.rendered(font@),
    {
        let width = self.width();
        let count = self.cell_count();
        let ghost view = self@;
        let ghost table = font@;
        let mut out = String::new();
        let mut line: Vec<char> = Vec::new();
        let mut next: usize = 0;
        let mut done = false;
        let ghost mut row: int = 0;
        while !done
            invariant
                view == self@,
                table == font@,
                width == view.width,
                width >= 1,
                count == view.cells.len(),
                0 <= row,
                next <= count,
                !done ==> next == row * width,
                done ==> row == count / width + 1,
                out@ == view.rendered_lines(table, row),
            decreases (if done { 0 } else { count - next + 1 }),
        {
            line.clear();
            let mut col: usize = 0;
            let ghost start = next;
            while col < width && next < count
                invariant
                    view == self@,
                    table == font@,
                    count == view.cells.len(),
                    col <= width,
                    next <= count,
                    next == start + col,
                    line@.len() == col,
                    forall|k: int| 0 <= k < col ==> line@[k] == glyph(view.cells[start + k], table),
                decreases count - next,
            {
                let glyph = match self.cell_at(next) {
                    Character::Text(c) => c,
                    Character::Bitmap(block) => font.translate(block),
                };
                line.push(glyph);
                next = next + 1;
                col = col + 1;
            }
            done = col < width;
            proof {
                assert(line@ =~= view.row_glyphs(table, row));
                if done {
                    lemma_last_row(count as int, width as int, row);
                }
                row = row + 1;
                assert(row * width == (row - 1) * width + width) by (nonlinear_arith);
            }
            push_line(&mut out, &line);
        }
        let notes = self.footnote_count();
        if notes > 0 {
            out.push('\n');
            let ghost head = out@;
            let mut i: usize = 0;
            assert(out@ =~= head + view.footnote_lines(0));
            while i < notes
                invariant
                    view == self@,
                    notes == view.footnotes.len(),
                    i <= notes,
                    out@ == head + view.footnote_lines(i as int),
                decreases notes - i,
            {
                let ghost so_far = out@;
                out.push('[');
                push_decimal(&mut out, i + 1);
                out.push(']');
                out.push(':');
                out.push(' ');
                out.append(self.footnote(i).as_str());
                out.push('\n');
                assert(out@ =~= so_far + footnote_line(i as int, view.footnotes[i as int]));
                i = i + 1;
            }
            assert(out@ =~= view.rendered(table));
        } else {
            assert(out@ =~= view.rendered(table));
        }
        out
    }
}

impl Canvas {
    /// The state of pixel `(x, y)` of the cell in column `col` of row `row`.
    fn pixel_in_cell(&self, col: u64, row: u64, x: i8, y: i8) -> (on: bool)
        requires
            0 <= x < 3,
            0 <= y < 5,
        ensures
            on == self@.pixel(3 * col + x, 5 * row + y),
    {
        match self.get_character(CharCoord { x: col, y: row }) {
            Character::Bitmap(block) => block.peek(x, y),
            Character::Text(_) => false,
        }
    }

    /// Renders to a string at three times the width and two and a half times
    /// the height, such that one pixel is half a character high, which
    /// half-block characters show exactly. Allows a look at the complete
    /// canvas without the guesses of a glyph table. Every line ends in a line
    /// feed and has no whitespace before it; footnotes are left out.
    pub fn debug_render(&self) -> (text: String)
        ensures
            text@ == self@.debug_rendered(),
    {
        let width = self.width();
        let count = self.cell_count();
        let ghost view = self@;
        let rows: u128 = (count as u128 + width as u128 - 1) / (width as u128);
        let height: u128 = 2 * rows + (rows + 2) / 2;
        proof {
            lemma_rows_bound(count as int, width as int);
        }
        let mut out = String::new();
        let mut line: Vec<char> = Vec::new();
        let mut y: u128 = 0;
        while y < height
            invariant
                view == self@,
                width == view.width,
                width >= 1,
                rows <= usize::MAX,
                height == debug_height(view.rows()),
                height == 2 * rows + (rows + 2) / 2,
                y <= height,
                out@ == view.debug_lines(y as int),
            decreases height - y,
        {
            line.clear();
            let upper: u128 = 2 * y;
            let lower: u128 = 2 * y + 1;
            let upper_row = (upper / 5) as u64;
            let upper_sub = (upper % 5) as i8;
            let lower_row = (lower / 5) as u64;
            let lower_sub = (lower % 5) as i8;
            let mut col: usize = 0;
            while col < width
                invariant
                    view == self@,
                    width == view.width,
                    col <= width,
                    upper == 2 * y,
                    lower == 2 * y + 1,
                    upper_row == upper / 5,
                    upper_sub == upper % 5,
                    lower_row == lower / 5,
                    lower_sub == lower % 5,
                    line@.len() == 3 * col,
                    forall|k: int| 0 <= k < 3 * col ==> line@[k] == view.debug_glyph(k, y as int),
                decreases width - col,
            {
                let cell = self.get_character(CharCoord { x: col as u64, y: upper_row });
                let mut sub: i8 = 0;
                while sub < 3
                    invariant
                        view == self@,
                        col < width,
                        0 <= sub <= 3,
                        upper == 2 * y,
                        lower == 2 * y + 1,
                        upper_row == upper / 5,
                        upper_sub == upper % 5,
                        lower_row == lower / 5,
                        lower_sub == lower % 5,
                        cell == view.cell(col as int, upper_row as int),
                        line@.len() == 3 * col + sub,
                        forall|k: int|
                            0 <= k < 3 * col + sub ==> line@[k] == view.debug_glyph(k, y as int),
                    decreases 3 - sub,
                {
                    let ghost x = 3 * col + sub;
                    assert(x / 3 == col && x % 3 == sub);
                    let labelled = sub == 1 && (upper_sub == 2 || lower_sub == 2);
                    let upper_on = self.pixel_in_cell(col as u64, upper_row, sub, upper_sub);
                    let lower_on = self.pixel_in_cell(col as u64, lower_row, sub, lower_sub);
                    let pixels = if upper_on && lower_on {
                        '\u{2588}'
                    } else if upper_on {
                        '\u{2580}'
                    } else if lower_on {
                        '\u{2584}'
                    } else {
                        ' '
                    };
                    let glyph = match cell {
                        Character::Text(c) => if labelled {
                            c
                        } else {
                            pixels
                        },
                        Character::Bitmap(_) => pixels,
                    };
                    assert(glyph == view.debug_glyph(x, y as int));
                    line.push(glyph);
                    sub = sub + 1;
                }
                col = col + 1;
            }
            assert(line@ =~= view.debug_line(y as int));
            push_line(&mut out, &line);
            y = y + 1;
        }
        out
    }
}

/// A canvas has no more rows than cells.
proof fn lemma_rows_bound(count: int, width: int)
    requires
        width >= 1,
        0 <= count,
    ensures
        0 <= (count + width - 1) / width <= count,
{
    assert(0 <= (count + width - 1) / width <= count) by (nonlinear_arith)
        requires
            width >= 1,
            0 <= count,
    ;
}

/// A row that starts within the buffer and does not end within it is the
/// last one.
proof fn lemma_last_row(count: int, width: int, row: int)
    requires
        width >= 1,
        0 <= row,
        row * width <= count < row * width + width,
    ensures
        row == count / width,
{
    assert(row == count / width) by (nonlinear_arith)
        requires
            width >= 1,
            0 <= row,
            row * width <= count < row * width + width,
    ;
}

} // verus!
