//! The character grid: cells, their pixels, and how the grid grows.
//!
//! Pixel coordinates are whole numbers, three columns and five rows to a
//! cell. A pixel or a cell is addressable if its coordinates are not
//! negative, its column lies within the grid's width and its place in the
//! row-major buffer can be counted in a `usize`. Whatever is not addressable
//! reads as empty and swallows writes.

use vstd::prelude::*;
use crate::bitmap::lemma_poked_pixels;
use crate::bitmap::lemma_with_bits;
pub use crate::bitmap::BitmapChar;
pub use crate::font::BitmapFont;

verus! {

/// A pixel coordinate in an ASCII-art canvas.
#[derive(Clone, Copy, Debug, PartialEq, Eq, Structural)]
pub struct PixelCoord {
    pub x: i64,
    pub y: i64,
}

impl PixelCoord {
    /// The pixel in column `x` of row `y`.
    pub fn new(x: i64, y: i64) -> (coord: PixelCoord)
        ensures
            coord.x == x,
            coord.y == y,
    {
        PixelCoord { x, y }
    }
}

/// A character coordinate in an ASCII-art canvas: column `x` of row `y`.
#[derive(Clone, Copy, Debug, PartialEq, Eq, Structural)]
pub struct CharCoord {
    pub x: u64,
    pub y: u64,
}

impl CharCoord {
    /// The cell in column `x` of row `y`.
    pub fn new(x: u64, y: u64) -> (coord: CharCoord)
        ensures
            coord.x == x,
            coord.y == y,
    {
        CharCoord { x, y }
    }
}

/// A character in the canvas. Either a 3x5 pixel map or a textual character.
/// Textual characters always take precedence over line art.
#[derive(Clone, Copy, Debug, PartialEq, Eq, Structural)]
pub enum Character {
    Bitmap(BitmapChar),
    Text(char),
}

/// What a cell holds before anything is written to it: no pixels.
pub open spec fn empty_cell() -> Character {
    Character::Bitmap(BitmapChar::with_bits(0))
}

impl Default for Character {
    fn default() -> (cell: Character)
        ensures
            cell == empty_cell(),
    {
        proof {
            lemma_with_bits(0);
        }
        Character::Bitmap(BitmapChar::from_index(0))
    }
}

/// A canvas as a value: its width in cells, the cells written so far in
/// row-major order, and its footnotes.
pub struct CanvasView {
    pub width: nat,
    pub cells: Seq<Character>,
    pub footnotes: Seq<Seq<char>>,
}

/// Whether a cell keeps to the 15 bits of a block, as every cell of a canvas
/// does.
pub open spec fn cell_well_formed(cell: Character) -> bool {
    match cell {
        Character::Bitmap(block) => block.well_formed(),
        Character::Text(_) => true,
    }
}

impl CanvasView {
    /// A canvas has at least one column.
    pub open spec fn well_formed(self) -> bool {
        self.width >= 1
    }

    /// Whether a canvas can have this value: it has at least one column, its
    /// width and the length of its buffer can be counted in a `usize`, and
    /// its blocks keep to their 15 bits.
    pub open spec fn is_canvas(self) -> bool {
        &&& self.well_formed()
        &&& self.width <= usize::MAX
        &&& self.cells.len() <= usize::MAX
        &&& forall|i: int| 0 <= i < self.cells.len() ==> cell_well_formed(#[trigger] self.cells[i])
    }

    /// The place of cell `(col, row)` in the buffer, if it is addressable.
    pub open spec fn index_of(self, col: int, row: int) -> Option<int> {
        if 0 <= col < self.width && 0 <= row && col + self.width * row < usize::MAX {
            Some(col + self.width * row)
        } else {
            None
        }
    }

    /// The cell at a place in the buffer; empty beyond the cells written so
    /// far.
    pub open spec fn cell_at(self, index: int) -> Character {
        if 0 <= index < self.cells.len() {
            self.cells[index]
        } else {
            empty_cell()
        }
    }

    /// The cell at column `col` of row `row`; empty where there is none.
    pub open spec fn cell(self, col: int, row: int) -> Character {
        match self.index_of(col, row) {
            Some(index) => self.cell_at(index),
            None => empty_cell(),
        }
    }

    /// The state of the pixel at `(x, y)`. A pixel is off where there is no
    /// cell and where the cell holds text.
    pub open spec fn pixel(self, x: int, y: int) -> bool {
        x >= 0 && y >= 0 && match self.cell(x / 3, y / 5) {
            Character::Bitmap(block) => block.pixel(x % 3, y % 5),
            Character::Text(_) => false,
        }
    }

    /// The place in the buffer of the cell that holds pixel `(x, y)`, if the
    /// pixel is addressable.
    pub open spec fn place_of_pixel(self, x: int, y: int) -> Option<int> {
        if x < 0 || y < 0 {
            None
        } else {
            self.index_of(x / 3, y / 5)
        }
    }

    /// Whether the pixel at `(x, y)` can be set and cleared: it is
    /// addressable and its cell does not hold text.
    pub open spec fn paintable(self, x: int, y: int) -> bool {
        match self.place_of_pixel(x, y) {
            Some(index) => self.cell_at(index) is Bitmap,
            None => false,
        }
    }

    /// The number of rows that hold at least one written cell.
    pub open spec fn rows(self) -> int {
        (self.cells.len() + self.width - 1) / (self.width as int)
    }

    /// The canvas with its buffer extended by empty cells, up to and
    /// including the place `index`.
    pub open spec fn grown(self, index: int) -> CanvasView {
        if index < self.cells.len() {
            self
        } else {
            CanvasView {
                cells: self.cells + Seq::new(
                    (index + 1 - self.cells.len()) as nat,
                    |i: int| empty_cell(),
                ),
                ..self
            }
        }
    }

    /// The canvas after the character `c` is written to cell `(col, row)`.
    pub open spec fn with_text(self, col: int, row: int, c: char) -> CanvasView {
        match self.index_of(col, row) {
            Some(index) => {
                let grown = self.grown(index);
                CanvasView { cells: grown.cells.update(index, Character::Text(c)), ..grown }
            },
            None => self,
        }
    }

    /// The canvas after the pixel at `(x, y)` is set to `value`. The buffer
    /// grows to hold the pixel's cell; a cell that holds text keeps it.
    pub open spec fn with_pixel(self, x: int, y: int, value: bool) -> CanvasView {
        if x < 0 || y < 0 {
            self
        } else {
            match self.index_of(x / 3, y / 5) {
                Some(index) => {
                    let grown = self.grown(index);
                    match grown.cells[index] {
                        Character::Bitmap(block) => CanvasView {
                            cells: grown.cells.update(
                                index,
                                Character::Bitmap(block.poked(x % 3, y % 5, value)),
                            ),
                            ..grown
                        },
                        Character::Text(_) => grown,
                    }
                },
                None => self,
            }
        }
    }
}

/// Whether `after` can come after `before` in the life of a canvas: the
/// width and the footnotes stay, the buffer does not shrink, and a cell that
/// holds text goes on holding text.
pub open spec fn extends(before: CanvasView, after: CanvasView) -> bool {
    &&& after.width == before.width
    &&& after.footnotes == before.footnotes
    &&& before.cells.len() <= after.cells.len()
    &&& forall|i: int|
        0 <= i < before.cells.len() && before.cells[i] is Text ==> #[trigger] after.cells[i] is Text
}

/// A canvas comes after itself, and after whatever a canvas before it came
/// after.
pub proof fn lemma_extends_chain(first: CanvasView, second: CanvasView, third: CanvasView)
    requires
        extends(first, second),
        extends(second, third),
    ensures
        extends(first, first),
        extends(first, third),
{
    assert forall|i: int|
        0 <= i < first.cells.len() && first.cells[i] is Text implies #[trigger] third.cells[i] is Text by {
        assert(second.cells[i] is Text);
    }
}

/// Writing a character keeps what `extends` asks for, and the written cell
/// holds that character from then on, whatever it held before.
pub proof fn lemma_with_text_extends(view: CanvasView, col: int, row: int, c: char)
    ensures
        extends(view, view.with_text(col, row, c)),
        view.index_of(col, row) is Some ==> view.with_text(col, row, c).cell(col, row)
            == Character::Text(c),
{
}

/// Setting or clearing a pixel keeps what `extends` asks for, and leaves
/// every cell that holds text as it is.
pub proof fn lemma_with_pixel_extends(view: CanvasView, x: int, y: int, value: bool)
    ensures
        extends(view, view.with_pixel(x, y, value)),
        forall|col: int, row: int|
            view.cell(col, row) is Text ==> #[trigger] view.with_pixel(x, y, value).cell(col, row)
                == view.cell(col, row),
{
}

/// Setting or clearing a pixel changes that pixel, if it is paintable, and
/// no other.
pub proof fn lemma_with_pixel_reads(
    view: CanvasView,
    x: int,
    y: int,
    value: bool,
    other_x: int,
    other_y: int,
)
    requires
        view.well_formed(),
    ensures
        view.with_pixel(x, y, value).pixel(other_x, other_y) == (if other_x == x && other_y == y
            && view.paintable(x, y) {
            value
        } else {
            view.pixel(other_x, other_y)
        }),
{
    let after = view.with_pixel(x, y, value);
    lemma_with_bits(0);
    match view.place_of_pixel(other_x, other_y) {
        Some(k) => {
            match view.place_of_pixel(x, y) {
                Some(j) => {
                    let grown = view.grown(j);
                    assert(grown.cells[j] == view.cell_at(j));
                    if j == k {
                        let w = view.width as int;
                        assert(x / 3 == other_x / 3 && y / 5 == other_y / 5) by (nonlinear_arith)
                            requires
                                0 <= x / 3 < w,
                                0 <= other_x / 3 < w,
                                x / 3 + w * (y / 5) == other_x / 3 + w * (other_y / 5),
                        ;
                        match view.cell_at(j) {
                            Character::Bitmap(block) => {
                                lemma_poked_pixels(block, x % 3, y % 5, value);
                                assert(after.cell_at(k) == Character::Bitmap(
                                    block.poked(x % 3, y % 5, value),
                                ));
                            },
                            Character::Text(_) => {},
                        }
                    } else {
                        assert(after.cell_at(k) == view.cell_at(k));
                    }
                },
                None => {},
            }
        },
        None => {},
    }
}

/// ASCII art canvas.
///
/// Each character position can also be treated as a 3x5-pixel bitmap: pixel
/// `(x, y)` belongs to the character in column `x / 3` of row `y / 5`.
///
/// Writing a normal (text) character to a character position overrides any
/// bitmap information for that position. If, in the end, only a bitmap is left
/// for some position, a suitable character is chosen based on a `BitmapFont`
/// lookup table.
pub struct Canvas {
    /// Characters arranged in lines of length `width`, not including newlines
    /// and the like.
    data: Vec<Character>,
    /// Width of the data buffer.
    width: usize,
    /// Notes that are printed below the canvas.
    footnotes: Vec<String>,
}

impl View for Canvas {
    type V = CanvasView;

    closed spec fn view(&self) -> CanvasView {
        CanvasView {
            width: self.width as nat,
            cells: self.data@,
            footnotes: Seq::new(self.footnotes@.len(), |i: int| self.footnotes@[i]@),
        }
    }
}

impl Clone for Canvas {
    fn clone(&self) -> (copy: Canvas)
        ensures
            copy@ == self@,
    {
        proof {
            use_type_invariant(self);
        }
        let copy = Canvas {
            data: self.data.clone(),
            width: self.width,
            footnotes: self.footnotes.clone(),
        };
        assert(copy.data@ =~= self.data@);
        assert(copy@.footnotes =~= self@.footnotes);
        copy
    }
}

proof fn lemma_flat_index_fits(width: int, col: int, row: int)
    requires
        0 <= col < width <= u64::MAX,
        0 <= row <= u64::MAX,
    ensures
        0 <= width * row <= 0xFFFF_FFFF_FFFF_FFFF * 0xFFFF_FFFF_FFFF_FFFF,
        0 <= width * row + col < 0x1_0000_0000_0000_0000 * 0x1_0000_0000_0000_0000,
{
    assert(0 <= width * row <= 0xFFFF_FFFF_FFFF_FFFF * 0xFFFF_FFFF_FFFF_FFFF) by (nonlinear_arith)
        requires
            0 <= width <= 0xFFFF_FFFF_FFFF_FFFF,
            0 <= row <= 0xFFFF_FFFF_FFFF_FFFF,
    ;
}

impl Canvas {
    /// A canvas has at least one column, and its blocks keep to their 15
    /// bits.
    #[verifier::type_invariant]
    pub closed spec fn valid(self) -> bool {
        &&& self.width >= 1
        &&& self.data.len() <= usize::MAX
        &&& forall|i: int| 0 <= i < self.data@.len() ==> cell_well_formed(#[trigger] self.data@[i])
    }

    /// What `valid` says of the canvas as a value.
    pub proof fn lemma_valid(self)
        requires
            self.valid(),
        ensures
            self@.is_canvas(),
    {
    }

    /// Creates a new canvas for drawings that are `target_pixel_width` pixels
    /// wide: it has one column more than that many pixels fill, and no rows
    /// yet.
    pub fn new(target_pixel_width: usize) -> (canvas: Canvas)
        ensures
            canvas@ == (CanvasView {
                width: (target_pixel_width / 3 + 1) as nat,
                cells: Seq::empty(),
                footnotes: Seq::empty(),
            }),
    {
        let canvas = Canvas {
            data: Vec::new(),
            width: target_pixel_width / 3 + 1,
            footnotes: Vec::new(),
        };
        assert(canvas@.footnotes =~= Seq::empty());
        canvas
    }

    /// The number of columns.
    pub fn width(&self) -> (width: usize)
        ensures
            width == self@.width,
            width >= 1,
            self@.is_canvas(),
    {
        proof {
            use_type_invariant(self);
        }
        self.width
    }

    /// The number of cells written so far, empty ones in between included.
    pub fn cell_count(&self) -> (count: usize)
        ensures
            count == self@.cells.len(),
    {
        self.data.len()
    }

    /// The cell at a place in the buffer.
    pub fn cell_at(&self, index: usize) -> (cell: Character)
        requires
            index < self@.cells.len(),
        ensures
            cell == self@.cells[index as int],
    {
        self.data[index]
    }

    /// The number of footnotes.
    pub fn footnote_count(&self) -> (count: usize)
        ensures
            count == self@.footnotes.len(),
    {
        self.footnotes.len()
    }

    /// The footnote at position `index`.
    pub fn footnote(&self, index: usize) -> (note: &String)
        requires
            index < self@.footnotes.len(),
        ensures
            note@ == self@.footnotes[index as int],
    {
        &self.footnotes[index]
    }

    /// Returns the index in data for a given character coordinate, if the
    /// coordinate is addressable.
    pub fn data_index(&self, index: CharCoord) -> (found: Option<usize>)
        ensures
            match found {
                Some(i) => self@.index_of(index.x as int, index.y as int) == Some(i as int),
                None => self@.index_of(index.x as int, index.y as int) is None,
            },
    {
        if index.x >= self.width as u64 {
            None
        } else {
            proof {
                lemma_flat_index_fits(self.width as int, index.x as int, index.y as int);
            }
            let flat: u128 = (self.width as u128) * (index.y as u128) + (index.x as u128);
            if flat < usize::MAX as u128 {
                Some(flat as usize)
            } else {
                None
            }
        }
    }

    /// Returns the character at the given character coordinate.
    pub fn get_character(&self, index: CharCoord) -> (cell: Character)
        ensures
            cell == self@.cell(index.x as int, index.y as int),
    {
        match self.data_index(index) {
            Some(i) => {
                if i < self.data.len() {
                    self.data[i]
                } else {
                    Character::default()
                }
            },
            None => Character::default(),
        }
    }

    /// Extends the buffer with empty cells, up to and including `index`, and
    /// then puts `cell` at `index` if one is given.
    fn store(&mut self, index: usize, cell: Option<Character>)
        requires
            index < usize::MAX,
            cell matches Some(c) ==> cell_well_formed(c),
        ensures
            cell is None ==> final(self)@ == old(self)@.grown(index as int),
            cell matches Some(c) ==> final(self)@ == (CanvasView {
                cells: old(self)@.grown(index as int).cells.update(index as int, c),
                ..old(self)@
            }),
    {
        proof {
            use_type_invariant(&*self);
        }
        let mut data: Vec<Character> = Vec::new();
        std::mem::swap(&mut self.data, &mut data);
        let ghost before = data@;
        assert(data@ =~= before + Seq::new(0, |i: int| empty_cell()));
        while data.len() <= index
            invariant
                index < usize::MAX,
                before.len() <= data@.len(),
                forall|i: int| 0 <= i < data@.len() ==> cell_well_formed(#[trigger] data@[i]),
                before.len() <= index ==> data@.len() <= index + 1,
                before.len() > index ==> data@.len() == before.len(),
                data@ == before + Seq::new(
                    (data@.len() - before.len()) as nat,
                    |i: int| empty_cell(),
                ),
            decreases index + 1 - data.len(),
        {
            proof {
                lemma_with_bits(0);
            }
            data.push(Character::default());
            assert(data@ =~= before + Seq::new(
                (data@.len() - before.len()) as nat,
                |i: int| empty_cell(),
            ));
        }
        assert(data@ =~= old(self)@.grown(index as int).cells);
        match cell {
            Some(c) => {
                data.set(index, c);
            },
            None => {},
        }
        self.data = data;
        assert(self@.footnotes =~= old(self)@.footnotes);
    }

    /// Translates a pixel coordinate to a character coordinate and a
    /// sub-character coordinate on the 3x5 grid of that character. There is
    /// none for a negative coordinate.
    pub fn translate_pix_to_char(&self, coord: PixelCoord) -> (place: Option<(CharCoord, i8, i8)>)
        ensures
            place is None <==> (coord.x < 0 || coord.y < 0),
            place matches Some((cell, x, y)) ==> {
                &&& cell.x == coord.x / 3
                &&& cell.y == coord.y / 5
                &&& x == coord.x % 3
                &&& y == coord.y % 5
            },
    {
        if coord.x < 0 || coord.y < 0 {
            return None;
        }
        let cx = (coord.x / 3) as u64;
        let cy = (coord.y / 5) as u64;
        let px = (coord.x % 3) as i8;
        let py = (coord.y % 5) as i8;
        Some((CharCoord { x: cx, y: cy }, px, py))
    }

    /// Writes a text character to the given character coordinate. The cell
    /// holds text from then on, whatever it held before.
    pub fn set_character(&mut self, index: CharCoord, character: char)
        ensures
            final(self)@ == old(self)@.with_text(index.x as int, index.y as int, character),
            old(self)@.index_of(index.x as int, index.y as int) is Some ==> final(self)@.cell(
                index.x as int,
                index.y as int,
            ) == Character::Text(character),
            extends(old(self)@, final(self)@),
    {
        proof {
            lemma_with_text_extends(self@, index.x as int, index.y as int, character);
        }
        match self.data_index(index) {
            Some(i) => {
                self.store(i, Some(Character::Text(character)));
            },
            None => {},
        }
    }

    /// Returns the state of the pixel at the given pixel coordinate. Returns
    /// false if there is a text character here or if the coordinate is out of
    /// range.
    pub fn get_pixel(&self, coord: PixelCoord) -> (on: bool)
        ensures
            on == self@.pixel(coord.x as int, coord.y as int),
    {
        match self.translate_pix_to_char(coord) {
            Some((index, x, y)) => {
                match self.get_character(index) {
                    Character::Bitmap(block) => block.peek(x, y),
                    Character::Text(_) => false,
                }
            },
            None => false,
        }
    }

    /// Draws a single pixel, given a pixel coordinate.
    pub fn set_pixel(&mut self, coord: PixelCoord, value: bool)
        ensures
            final(self)@ == old(self)@.with_pixel(coord.x as int, coord.y as int, value),
            extends(old(self)@, final(self)@),
    {
        proof {
            lemma_with_pixel_extends(self@, coord.x as int, coord.y as int, value);
        }
        match self.translate_pix_to_char(coord) {
            Some((index, x, y)) => {
                match self.data_index(index) {
                    Some(i) => {
                        match self.get_character(index) {
                            Character::Bitmap(block) => {
                                let mut block = block;
                                block.poke(x, y, value);
                                proof {
                                    use_type_invariant(&block);
                                }
                                self.store(i, Some(Character::Bitmap(block)));
                            },
                            Character::Text(_) => {
                                self.store(i, None);
                            },
                        }
                    },
                    None => {},
                }
            },
            None => {},
        }
    }
}

} // verus!
