//! Drawing onto the canvas: text, rectangles and lines.

use vstd::prelude::*;
use vstd::arithmetic::div_mod::lemma_div_pos_is_pos;
use vstd::arithmetic::div_mod::lemma_fundamental_div_mod;
use vstd::arithmetic::div_mod::lemma_mod_pos_bound;
use crate::bitmap::in_cell;
use crate::bitmap::lemma_poked_pixels;
use crate::bitmap::lemma_with_bits;
use crate::bitmap::BitmapChar;
use crate::bitmap::lemma_pixels_determine_block;
use crate::canvas::empty_cell;
use crate::canvas::extends;
use crate::canvas::lemma_extends_chain;
use crate::canvas::lemma_with_pixel_extends;
use crate::canvas::Canvas;
use crate::canvas::CanvasView;
use crate::canvas::Character;
use crate::canvas::PixelCoord;
use crate::line::in_bounding_box;
use crate::line::line_points;
use crate::line::line_span;
use crate::line::next_point;
use crate::line::remaining_points;
use crate::line::start_line;
use crate::line::within_line_limit;
use crate::text::is_control_char;

verus! {

/// A set of pixels, each given by its column and row.
pub type Shape = Set<(int, int)>;

/// Whether the cell `after` is the cell `before` with the pixels of `shape`
/// switched on. The cell stands in column `col` of row `row`. A cell that
/// holds text is left as it is.
pub open spec fn painted_cell(
    before: Character,
    after: Character,
    shape: Shape,
    col: int,
    row: int,
) -> bool {
    match before {
        Character::Text(_) => after == before,
        Character::Bitmap(old_block) => {
            &&& after matches Character::Bitmap(new_block)
            &&& forall|px: int, py: int|
                in_cell(px, py) ==> #[trigger] new_block.pixel(px, py) == (old_block.pixel(px, py)
                    || shape.contains((3 * col + px, 5 * row + py)))
        },
    }
}

/// Whether the canvas `after` is the canvas `before` with the pixels of
/// `shape` switched on: the buffer has grown just far enough to hold the
/// last addressable pixel of the shape, and every cell has gained the pixels
/// of the shape that fall into it, unless it holds text.
pub open spec fn painted(before: CanvasView, after: CanvasView, shape: Shape) -> bool {
    &&& after.width == before.width
    &&& after.footnotes == before.footnotes
    &&& before.cells.len() <= after.cells.len()
    &&& forall|x: int, y: int|
        #![trigger shape.contains((x, y))]
        shape.contains((x, y)) ==> match before.place_of_pixel(x, y) {
            Some(i) => i < after.cells.len(),
            None => true,
        }
    &&& before.cells.len() < after.cells.len() ==> exists|x: int, y: int|
        #![trigger shape.contains((x, y))]
        shape.contains((x, y)) && before.place_of_pixel(x, y) == Some(after.cells.len() - 1)
    &&& forall|col: int, row: int|
        #![trigger before.index_of(col, row)]
        match before.index_of(col, row) {
            Some(i) => i < after.cells.len() ==> painted_cell(
                before.cell_at(i),
                after.cells[i],
                shape,
                col,
                row,
            ),
            None => true,
        }
}

/// Two cells with the same place in the buffer are the same cell.
pub proof fn lemma_index_of_is_injective(view: CanvasView, c1: int, r1: int, c2: int, r2: int)
    requires
        view.index_of(c1, r1) is Some,
        view.index_of(c1, r1) == view.index_of(c2, r2),
    ensures
        c1 == c2,
        r1 == r2,
{
    let w = view.width as int;
    assert(r1 == r2) by (nonlinear_arith)
        requires
            0 <= c1 < w,
            0 <= c2 < w,
            c1 + w * r1 == c2 + w * r2,
    ;
}

/// Painting nothing leaves the canvas as it is.
pub proof fn lemma_painted_nothing(view: CanvasView)
    ensures
        painted(view, view, Set::empty()),
{
    assert forall|col: int, row: int|
        #![trigger view.index_of(col, row)]
        match view.index_of(col, row) {
            Some(i) => i < view.cells.len() ==> painted_cell(
                view.cell_at(i),
                view.cells[i],
                Set::empty(),
                col,
                row,
            ),
            None => true,
        } by {
        match view.index_of(col, row) {
            Some(i) => {
                if i < view.cells.len() {
                    assert(view.cells[i] == view.cell_at(i));
                }
            },
            None => {},
        }
    }
}

/// Setting one more pixel adds that pixel to the shape painted so far.
pub proof fn lemma_painted_step(before: CanvasView, now: CanvasView, shape: Shape, x: int, y: int)
    requires
        before.well_formed(),
        painted(before, now, shape),
    ensures
        painted(before, now.with_pixel(x, y, true), shape.insert((x, y))),
{
    let next = now.with_pixel(x, y, true);
    let more = shape.insert((x, y));
    match now.place_of_pixel(x, y) {
        None => {
            assert(next == now);
            assert forall|col: int, row: int|
                #![trigger before.index_of(col, row)]
                match before.index_of(col, row) {
                    Some(i) => i < next.cells.len() ==> painted_cell(
                        before.cell_at(i),
                        next.cells[i],
                        more,
                        col,
                        row,
                    ),
                    None => true,
                } by {
                match before.index_of(col, row) {
                    Some(i) => {
                        if i < next.cells.len() {
                            assert(painted_cell(
                                before.cell_at(i),
                                now.cells[i],
                                shape,
                                col,
                                row,
                            ));
                            assert forall|px: int, py: int| in_cell(px, py) implies !(3 * col + px
                                == x && 5 * row + py == y) by {
                                if 3 * col + px == x && 5 * row + py == y {
                                    assert(x / 3 == col && y / 5 == row);
                                }
                            }
                        }
                    },
                    None => {},
                }
            }
        },
        Some(j) => {
            lemma_painted_step_cells(before, now, shape, x, y, j);
        },
    }
    assert(more.contains((x, y)));
    if before.cells.len() < next.cells.len() {
        if next.cells.len() == now.cells.len() {
            let (wx, wy) = choose|wx: int, wy: int|
                #![trigger shape.contains((wx, wy))]
                shape.contains((wx, wy)) && before.place_of_pixel(wx, wy) == Some(
                    now.cells.len() - 1,
                );
            assert(more.contains((wx, wy)));
        } else {
            assert(before.place_of_pixel(x, y) == Some(next.cells.len() - 1));
        }
    }
}

/// The part of `lemma_painted_step` that looks at the cells, for a pixel
/// whose cell has the place `j` in the buffer.
proof fn lemma_painted_step_cells(
    before: CanvasView,
    now: CanvasView,
    shape: Shape,
    x: int,
    y: int,
    j: int,
)
    requires
        before.well_formed(),
        painted(before, now, shape),
        now.place_of_pixel(x, y) == Some(j),
    ensures
        forall|col: int, row: int|
            #![trigger before.index_of(col, row)]
            match before.index_of(col, row) {
                Some(i) => i < now.with_pixel(x, y, true).cells.len() ==> painted_cell(
                    before.cell_at(i),
                    now.with_pixel(x, y, true).cells[i],
                    shape.insert((x, y)),
                    col,
                    row,
                ),
                None => true,
            },
{
    let next = now.with_pixel(x, y, true);
    let more = shape.insert((x, y));
    let grown = now.grown(j);
    lemma_with_bits(0);
    assert forall|col: int, row: int|
        #![trigger before.index_of(col, row)]
        match before.index_of(col, row) {
            Some(i) => i < next.cells.len() ==> painted_cell(
                before.cell_at(i),
                next.cells[i],
                more,
                col,
                row,
            ),
            None => true,
        } by {
        match before.index_of(col, row) {
            Some(i) => {
                if i < next.cells.len() {
                    // What the cell held before this pixel was set.
                    let held = now.cell_at(i);
                    assert(grown.cells[i] == held);
                    assert(painted_cell(before.cell_at(i), held, shape, col, row)) by {
                        if i < now.cells.len() {
                            assert(painted_cell(
                                before.cell_at(i),
                                now.cells[i],
                                shape,
                                col,
                                row,
                            ));
                        } else {
                            assert(before.cell_at(i) == empty_cell());
                            assert forall|px: int, py: int| in_cell(px, py) implies !shape.contains(
                                (3 * col + px, 5 * row + py),
                            ) by {
                                assert((3 * col + px) / 3 == col && (5 * row + py) / 5 == row);
                                if shape.contains((3 * col + px, 5 * row + py)) {
                                    assert(before.place_of_pixel(3 * col + px, 5 * row + py)
                                        == Some(i));
                                }
                            }
                            lemma_empty_block_pixels();
                        }
                    }
                    if i == j {
                        lemma_index_of_is_injective(before, col, row, x / 3, y / 5);
                        match held {
                            Character::Bitmap(block) => {
                                lemma_poked_pixels(block, x % 3, y % 5, true);
                                assert(next.cells[i] == Character::Bitmap(
                                    block.poked(x % 3, y % 5, true),
                                ));
                            },
                            Character::Text(_) => {},
                        }
                    } else {
                        assert(next.cells[i] == held);
                        assert forall|px: int, py: int| in_cell(px, py) implies !(3 * col + px == x
                            && 5 * row + py == y) by {
                            if 3 * col + px == x && 5 * row + py == y {
                                assert(x / 3 == col && y / 5 == row);
                            }
                        }
                    }
                }
            },
            None => {},
        }
    }
}

/// No pixel of an empty cell is on.
pub proof fn lemma_empty_block_pixels()
    ensures
        forall|px: int, py: int| !(#[trigger] BitmapChar::with_bits(0).pixel(px, py)),
{
    lemma_with_bits(0);
    assert(forall|i: u16| 0u16 & (1u16 << i) == 0) by (bit_vector);
}

/// `painted` leaves nothing open: a canvas and a shape have one painted
/// canvas only.
pub proof fn lemma_painted_is_exact(
    before: CanvasView,
    first: CanvasView,
    second: CanvasView,
    shape: Shape,
)
    requires
        before.well_formed(),
        first.is_canvas(),
        second.is_canvas(),
        painted(before, first, shape),
        painted(before, second, shape),
    ensures
        first == second,
{
    let w = before.width as int;
    if first.cells.len() < second.cells.len() {
        let (x, y) = choose|x: int, y: int|
            #![trigger shape.contains((x, y))]
            shape.contains((x, y)) && before.place_of_pixel(x, y) == Some(second.cells.len() - 1);
        assert(shape.contains((x, y)));
        assert(false);
    }
    if second.cells.len() < first.cells.len() {
        let (x, y) = choose|x: int, y: int|
            #![trigger shape.contains((x, y))]
            shape.contains((x, y)) && before.place_of_pixel(x, y) == Some(first.cells.len() - 1);
        assert(shape.contains((x, y)));
        assert(false);
    }
    assert forall|i: int| 0 <= i < first.cells.len() implies first.cells[i] == second.cells[i] by {
        let col = i % w;
        let row = i / w;
        lemma_fundamental_div_mod(i, w);
        lemma_mod_pos_bound(i, w);
        lemma_div_pos_is_pos(i, w);
        assert(before.index_of(col, row) == Some(i));
        assert(painted_cell(before.cell_at(i), first.cells[i], shape, col, row));
        assert(painted_cell(before.cell_at(i), second.cells[i], shape, col, row));
        match before.cell_at(i) {
            Character::Text(_) => {},
            Character::Bitmap(_) => {
                let one = first.cells[i]->Bitmap_0;
                let two = second.cells[i]->Bitmap_0;
                lemma_pixels_determine_block(one, two);
            },
        }
    }
    assert(first.cells =~= second.cells);
}

/// Whether the pixel `(x, y)` lies on the border of the rectangle with the
/// corners `a` and `b`: on the row of `a` or of `b` between their columns, or
/// on the column of `a` or of `b` between their rows. An edge whose span runs
/// backwards, from `a` down to `b`, has no pixels.
pub open spec fn on_rect_border(a: PixelCoord, b: PixelCoord, x: int, y: int) -> bool {
    ||| (a.x <= x <= b.x && (y == a.y || y == b.y))
    ||| (a.y <= y <= b.y && (x == a.x || x == b.x))
}

/// The pixels on the border of the rectangle with the corners `a` and `b`.
pub open spec fn rect_border(a: PixelCoord, b: PixelCoord) -> Shape {
    Set::new(|p: (int, int)| on_rect_border(a, b, p.0, p.1))
}

/// The pixels that a sequence of points covers.
pub open spec fn shape_of(points: Seq<(i64, i64)>) -> Shape {
    Set::new(
        |p: (int, int)|
            exists|i: int|
                0 <= i < points.len() && (#[trigger] points[i]).0 == p.0 && points[i].1 == p.1,
    )
}

impl CanvasView {
    /// The canvas after each of `points` is switched on, first to last.
    pub open spec fn with_points(self, points: Seq<(i64, i64)>) -> CanvasView
        decreases points.len(),
    {
        if points.len() == 0 {
            self
        } else {
            self.with_points(points.drop_last()).with_pixel(
                points.last().0 as int,
                points.last().1 as int,
                true,
            )
        }
    }

    /// The canvas after `text` is written with the cursor at cell `(col,
    /// row)`, where `home` is the column that a new line starts in. A line
    /// feed moves the cursor to the start of the next row; any other control
    /// character is skipped; every other character is written at the cursor,
    /// which then moves one column to the right.
    pub open spec fn with_text_from(self, home: int, col: int, row: int, text: Seq<char>) -> CanvasView
        decreases text.len(),
    {
        if text.len() == 0 {
            self
        } else if text.first() == '\n' {
            self.with_text_from(home, home, row + 1, text.drop_first())
        } else if is_control_char(text.first()) {
            self.with_text_from(home, col, row, text.drop_first())
        } else {
            self.with_text(col, row, text.first()).with_text_from(
                home,
                col + 1,
                row,
                text.drop_first(),
            )
        }
    }

    /// The canvas after `text` is written from the cell that holds pixel
    /// `(x, y)`. Nothing is written from a negative coordinate.
    pub open spec fn with_string(self, x: int, y: int, text: Seq<char>) -> CanvasView {
        if x < 0 || y < 0 {
            self
        } else {
            self.with_text_from(x / 3, x / 3, y / 5, text)
        }
    }
}

/// Switching points on one by one paints the shape that they cover.
pub proof fn lemma_with_points_painted(view: CanvasView, points: Seq<(i64, i64)>)
    requires
        view.well_formed(),
    ensures
        painted(view, view.with_points(points), shape_of(points)),
    decreases points.len(),
{
    if points.len() == 0 {
        lemma_painted_nothing(view);
        assert(shape_of(points) =~= Set::empty());
    } else {
        let front = points.drop_last();
        let last = points.last();
        lemma_with_points_painted(view, front);
        lemma_painted_step(
            view,
            view.with_points(front),
            shape_of(front),
            last.0 as int,
            last.1 as int,
        );
        assert forall|p: (int, int)|
            shape_of(points).contains(p) == shape_of(front).insert(
                (last.0 as int, last.1 as int),
            ).contains(p) by {
            if shape_of(points).contains(p) {
                let i = choose|i: int|
                    0 <= i < points.len() && (#[trigger] points[i]).0 == p.0 && points[i].1 == p.1;
                if i < front.len() {
                    assert(front[i] == points[i]);
                }
            }
            if shape_of(front).contains(p) {
                let i = choose|i: int|
                    0 <= i < front.len() && (#[trigger] front[i]).0 == p.0 && front[i].1 == p.1;
                assert(points[i] == front[i]);
            }
            if p == (last.0 as int, last.1 as int) {
                assert(points[points.len() - 1] == last);
            }
        }
        assert(shape_of(points) =~= shape_of(front).insert((last.0 as int, last.1 as int)));
    }
}

/// Switching points on keeps what `extends` asks for.
pub proof fn lemma_with_points_extends(view: CanvasView, points: Seq<(i64, i64)>)
    ensures
        extends(view, view.with_points(points)),
    decreases points.len(),
{
    if points.len() > 0 {
        let front = view.with_points(points.drop_last());
        lemma_with_points_extends(view, points.drop_last());
        lemma_with_pixel_extends(front, points.last().0 as int, points.last().1 as int, true);
        lemma_extends_chain(view, front, view.with_points(points));
    }
}

impl Canvas {
    /// Draws a rectangle: the four lines between the corners `a` and `b`,
    /// corners included. Where `a` lies to the right of `b` the horizontal
    /// lines are left out, and where it lies below `b` the vertical ones.
    pub fn draw_rect(&mut self, a: PixelCoord, b: PixelCoord)
        ensures
            painted(old(self)@, final(self)@, rect_border(a, b)),
            extends(old(self)@, final(self)@),
    {
        let ghost before = self@;
        proof {
            use_type_invariant(&*self);
            Canvas::lemma_valid(*self);
            lemma_painted_nothing(before);
        }
        let mut x: i128 = a.x as i128;
        assert(Set::<(int, int)>::empty() =~= Set::new(
            |p: (int, int)| a.x <= p.0 < x && p.0 <= b.x && (p.1 == a.y || p.1 == b.y),
        ));
        while x <= b.x as i128
            invariant
                a.x <= x,
                x <= b.x + 1 || x == a.x,
                before.well_formed(),
                extends(before, self@),
                painted(
                    before,
                    self@,
                    Set::new(
                        |p: (int, int)| a.x <= p.0 < x && p.0 <= b.x && (p.1 == a.y || p.1 == b.y),
                    ),
                ),
            decreases b.x + 1 - x,
        {
            let ghost shape = Set::new(
                |p: (int, int)| a.x <= p.0 < x && p.0 <= b.x && (p.1 == a.y || p.1 == b.y),
            );
            let ghost first = self@;
            self.set_pixel(PixelCoord { x: x as i64, y: a.y }, true);
            let ghost second = self@;
            self.set_pixel(PixelCoord { x: x as i64, y: b.y }, true);
            proof {
                lemma_extends_chain(before, first, second);
                lemma_extends_chain(before, second, self@);
                lemma_painted_step(before, first, shape, x as int, a.y as int);
                lemma_painted_step(
                    before,
                    second,
                    shape.insert((x as int, a.y as int)),
                    x as int,
                    b.y as int,
                );
                assert(shape.insert((x as int, a.y as int)).insert((x as int, b.y as int))
                    =~= Set::new(
                    |p: (int, int)|
                        a.x <= p.0 < x + 1 && p.0 <= b.x && (p.1 == a.y || p.1 == b.y),
                ));
            }
            x = x + 1;
        }
        let ghost rows = Set::new(
            |p: (int, int)| a.x <= p.0 <= b.x && (p.1 == a.y || p.1 == b.y),
        );
        let mut y: i128 = a.y as i128;
        assert(rows =~= Set::new(
            |p: (int, int)| a.x <= p.0 < x && p.0 <= b.x && (p.1 == a.y || p.1 == b.y),
        ));
        assert(rows =~= Set::new(
            |p: (int, int)|
                rows.contains(p) || (a.y <= p.1 < y && p.1 <= b.y && (p.0 == a.x || p.0 == b.x)),
        ));
        while y <= b.y as i128
            invariant
                a.y <= y,
                y <= b.y + 1 || y == a.y,
                before.well_formed(),
                extends(before, self@),
                rows == Set::new(
                    |p: (int, int)| a.x <= p.0 <= b.x && (p.1 == a.y || p.1 == b.y),
                ),
                painted(
                    before,
                    self@,
                    Set::new(
                        |p: (int, int)|
                            rows.contains(p) || (a.y <= p.1 < y && p.1 <= b.y && (p.0 == a.x || p.0
                                == b.x)),
                    ),
                ),
            decreases b.y + 1 - y,
        {
            let ghost shape = Set::new(
                |p: (int, int)|
                    rows.contains(p) || (a.y <= p.1 < y && p.1 <= b.y && (p.0 == a.x || p.0
                        == b.x)),
            );
            let ghost first = self@;
            self.set_pixel(PixelCoord { x: a.x, y: y as i64 }, true);
            let ghost second = self@;
            self.set_pixel(PixelCoord { x: b.x, y: y as i64 }, true);
            proof {
                lemma_extends_chain(before, first, second);
                lemma_extends_chain(before, second, self@);
                lemma_painted_step(before, first, shape, a.x as int, y as int);
                lemma_painted_step(
                    before,
                    second,
                    shape.insert((a.x as int, y as int)),
                    b.x as int,
                    y as int,
                );
                assert(shape.insert((a.x as int, y as int)).insert((b.x as int, y as int))
                    =~= Set::new(
                    |p: (int, int)|
                        rows.contains(p) || (a.y <= p.1 < y + 1 && p.1 <= b.y && (p.0 == a.x || p.0
                            == b.x)),
                ));
            }
            y = y + 1;
        }
        assert(rect_border(a, b) =~= Set::new(
            |p: (int, int)|
                rows.contains(p) || (a.y <= p.1 < y && p.1 <= b.y && (p.0 == a.x || p.0 == b.x)),
        ));
    }

    /// Draws a line from `a` to `b`, both included: the pixels that
    /// `line_drawing::Bresenham` walks, in its order. A line from a pixel to
    /// itself is that one pixel.
    pub fn draw_line(&mut self, a: PixelCoord, b: PixelCoord)
        requires
            within_line_limit((a.x, a.y)),
            within_line_limit((b.x, b.y)),
        ensures
            final(self)@ == old(self)@.with_points(line_points((a.x, a.y), (b.x, b.y))),
            painted(old(self)@, final(self)@, shape_of(line_points((a.x, a.y), (b.x, b.y)))),
            shape_of(line_points((a.x, a.y), (b.x, b.y))).contains((a.x as int, a.y as int)),
            shape_of(line_points((a.x, a.y), (b.x, b.y))).contains((b.x as int, b.y as int)),
            line_points((a.x, a.y), (b.x, b.y)).len() == line_span((a.x, a.y), (b.x, b.y)) + 1,
            a == b ==> final(self)@ == old(self)@.with_pixel(a.x as int, a.y as int, true),
            extends(old(self)@, final(self)@),
    {
        let ghost before = self@;
        let ghost path = line_points((a.x, a.y), (b.x, b.y));
        proof {
            use_type_invariant(&*self);
            Canvas::lemma_valid(*self);
        }
        let mut walk = start_line((a.x, a.y), (b.x, b.y));
        let ghost mut done: int = 0;
        proof {
            assert(path.skip(0) =~= path);
            assert(path.take(0) =~= Seq::empty());
            assert(path[0] == (a.x, a.y));
            assert(path[path.len() - 1] == (b.x, b.y));
            assert forall|i: int| 0 <= i < path.len() implies within_line_limit(
                #[trigger] path[i],
            ) by {
                assert(in_bounding_box((a.x, a.y), (b.x, b.y), path[i]));
            }
        }
        loop
            invariant
                0 <= done <= path.len(),
                remaining_points(walk) == path.skip(done),
                self@ == before.with_points(path.take(done)),
                forall|i: int| 0 <= i < path.len() ==> within_line_limit(#[trigger] path[i]),
            ensures
                done == path.len(),
                self@ == before.with_points(path.take(done)),
            decreases path.len() - done,
        {
            proof {
                assert forall|i: int| 0 <= i < remaining_points(walk).len() implies within_line_limit(
                    #[trigger] remaining_points(walk)[i],
                ) by {
                    assert(path.skip(done)[i] == path[done + i]);
                }
            }
            let point = next_point(&mut walk);
            match point {
                Some(at) => {
                    self.set_pixel(PixelCoord { x: at.0, y: at.1 }, true);
                    proof {
                        assert(at == path[done]);
                        assert(path.take(done + 1).drop_last() =~= path.take(done));
                        assert(path.take(done + 1).last() == path[done]);
                        assert(path.skip(done).drop_first() =~= path.skip(done + 1));
                        done = done + 1;
                    }
                },
                None => {
                    break ;
                },
            }
        }
        proof {
            assert(path.take(done) =~= path);
            lemma_with_points_painted(before, path);
            lemma_with_points_extends(before, path);
            if a == b {
                assert(path.len() == 1);
                assert(path.drop_last() =~= Seq::empty());
                assert(before.with_points(path.drop_last()) == before);
            }
        }
    }

    /// Writes a string starting at the cell that holds the pixel `coord`; a
    /// negative coordinate has no cell, and nothing is written. Each
    /// character takes the next cell to the right. A line feed goes back to
    /// the starting column, one row down. Other control characters are left
    /// out.
    pub fn draw_string(&mut self, coord: PixelCoord, text: &str)
        ensures
            final(self)@ == old(self)@.with_string(coord.x as int, coord.y as int, text@),
            extends(old(self)@, final(self)@),
    {
        let ghost before = self@;
        proof {
            use_type_invariant(&*self);
            Canvas::lemma_valid(*self);
        }
        match self.translate_pix_to_char(coord) {
            Some((top_left, _, _)) => {
                let mut pos = top_left;
                let ghost home = top_left.x as int;
                let ghost mut col: int = home;
                let ghost mut row: int = top_left.y as int;
                let ghost goal = before.with_text_from(home, home, row, text@);
                assert(text@.skip(0) =~= text@);
                for c in it: text.chars()
                    invariant
                        it.seq() == text@,
                        before.well_formed(),
                        before.width <= usize::MAX,
                        self@.width == before.width,
                        extends(before, self@),
                        home == top_left.x,
                        0 <= col,
                        0 <= row,
                        pos.x == stopped(col),
                        pos.y == stopped(row),
                        goal == self@.with_text_from(home, col, row, text@.skip(it.index())),
                {
                    let ghost rest = text@.skip(it.index());
                    assert(rest.first() == c);
                    assert(rest.drop_first() =~= text@.skip(it.index() + 1));
                    if c == '\n' {
                        pos.x = top_left.x;
                        if pos.y < u64::MAX {
                            pos.y = pos.y + 1;
                        }
                        proof {
                            col = home;
                            row = row + 1;
                        }
                    } else if !c.is_control() {
                        proof {
                            lemma_stopped_cursor(self@, col, row);
                        }
                        let ghost held = self@;
                        self.set_character(pos, c);
                        proof {
                            lemma_extends_chain(before, held, self@);
                        }
                        if pos.x < u64::MAX {
                            pos.x = pos.x + 1;
                        }
                        proof {
                            col = col + 1;
                        }
                    }
                }
                assert(text@.skip(text@.len() as int) =~= Seq::empty());
            },
            None => {},
        }
    }
}

/// Where a cursor stands that counts no further than the largest `u64`.
pub open spec fn stopped(v: int) -> int {
    if v < u64::MAX {
        v
    } else {
        u64::MAX as int
    }
}

/// A cursor that stops at the largest `u64` is at the same cell as one that
/// goes on: beyond that column or row no cell is addressable.
proof fn lemma_stopped_cursor(view: CanvasView, col: int, row: int)
    requires
        view.well_formed(),
        view.width <= usize::MAX,
        0 <= col,
        0 <= row,
    ensures
        view.index_of(stopped(col), stopped(row)) == view.index_of(col, row),
{
    let w = view.width as int;
    if row >= u64::MAX {
        assert(w * row >= row) by (nonlinear_arith)
            requires
                w >= 1,
                row >= 0,
        ;
        assert(w * (u64::MAX as int) >= u64::MAX as int) by (nonlinear_arith)
            requires
                w >= 1,
        ;
    }
}

} // verus!
