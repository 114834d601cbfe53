use dot_txt::bitmap::BitmapChar;
use dot_txt::canvas::{Canvas, CharCoord, PixelCoord};
use dot_txt::font::BitmapFont;

/// A table that shows the empty block as a space, the full top row as '-'
/// and every other block as '*'.
fn dashes() -> BitmapFont {
    let mut table = vec!['*'; 32768];
    table[0] = ' ';
    for bits in 0..32768u16 {
        if bits & 0b111 == 0b111 {
            table[bits as usize] = '-';
        }
    }
    let text: String = table.into_iter().collect();
    BitmapFont::deserialize(&text).unwrap()
}

#[test]
fn an_empty_canvas_renders_as_one_empty_line() {
    let canvas = Canvas::new(9);
    assert_eq!(canvas.render(&dashes()), "\n");
}

#[test]
fn text_renders_as_itself() {
    let mut canvas = Canvas::new(9);
    canvas.draw_string(PixelCoord::new(0, 0), "hi");
    assert_eq!(canvas.render(&dashes()), "hi\n");
    canvas.draw_string(PixelCoord::new(3, 5), "yo");
    assert_eq!(canvas.render(&dashes()), "hi\n yo\n");
}

#[test]
fn a_full_last_row_is_followed_by_an_empty_line() {
    let mut canvas = Canvas::new(3);
    canvas.draw_string(PixelCoord::new(0, 0), "hi");
    assert_eq!(canvas.render(&dashes()), "hi\n\n");
    canvas.draw_string(PixelCoord::new(0, 5), "yo");
    assert_eq!(canvas.render(&dashes()), "hi\nyo\n\n");
}

#[test]
fn whitespace_at_the_end_of_a_line_is_trimmed() {
    let mut canvas = Canvas::new(30);
    canvas.draw_string(PixelCoord::new(0, 0), "a b  \n  c\u{a0}\u{2003}\n   \nd");
    assert_eq!(canvas.render(&dashes()), "a b\n  c\n\nd\n");
}

#[test]
fn whitespace_inside_a_line_stays() {
    let mut canvas = Canvas::new(30);
    canvas.set_character(CharCoord::new(5, 0), 'x');
    assert_eq!(canvas.render(&dashes()), "     x\n");
    canvas.set_character(CharCoord::new(1, 0), '\t');
    assert_eq!(canvas.render(&dashes()), " \t   x\n");
}

#[test]
fn blocks_render_through_the_table() {
    let mut canvas = Canvas::new(9);
    canvas.set_pixel(PixelCoord::new(4, 7), true);
    assert_eq!(canvas.render(&dashes()), "\n *\n");
    let mut block = BitmapChar::default();
    block.poke(1, 2, true);
    let mut table = vec!['.'; 32768];
    table[block.bits() as usize] = 'o';
    let text: String = table.into_iter().collect();
    let font = BitmapFont::deserialize(&text).unwrap();
    assert_eq!(canvas.render(&font), "....\n.o\n");
}

/// A table that shows a block with a full top row as '-' and every other
/// block as a space.
fn top_rows() -> BitmapFont {
    let mut table = vec![' '; 32768];
    for bits in 0..32768u16 {
        if bits & 0b111 == 0b111 {
            table[bits as usize] = '-';
        }
    }
    let text: String = table.into_iter().collect();
    BitmapFont::deserialize(&text).unwrap()
}

#[test]
fn a_rectangle_renders_with_a_top_row_of_dashes() {
    let mut canvas = Canvas::new(9);
    assert_eq!(canvas.width(), 4);
    canvas.draw_rect(PixelCoord::new(0, 0), PixelCoord::new(9, 9));
    // The top border fills the top rows of the first three cells; the fourth
    // cell holds the right border only, which this table shows as a space.
    let text = canvas.render(&top_rows());
    let lines: Vec<&str> = text.split('\n').collect();
    assert_eq!(lines[0], "---");
    assert_eq!(text, "---\n\n\n");
    assert_eq!(canvas.render(&dashes()), "---*\n****\n\n");
}

#[test]
fn a_rectangle_renders_with_generated_glyphs() {
    let font = BitmapFont::generate(
        &[
            (' ', BitmapChar::from_bits(0b000_000_000_000_000)),
            ('-', BitmapChar::from_bits(0b111_000_000_000_000)),
            ('_', BitmapChar::from_bits(0b000_000_000_000_111)),
            ('|', BitmapChar::from_bits(0b100_100_100_100_100)),
            ('.', BitmapChar::from_bits(0b111_100_100_100_100)),
            ('\'', BitmapChar::from_bits(0b100_100_100_100_111)),
        ],
        |_| {},
    );
    let mut canvas = Canvas::new(12);
    canvas.draw_rect(PixelCoord::new(0, 0), PixelCoord::new(12, 14));
    // The right border is the left pixel column of the fifth cell.
    assert_eq!(canvas.render(&font), ".---|\n|   |\n'___|\n\n");
}

#[test]
fn the_exact_rendering_shows_two_pixel_rows_per_line() {
    let mut canvas = Canvas::new(0);
    for x in 0..3 {
        canvas.set_pixel(PixelCoord::new(x, 0), true);
    }
    canvas.set_pixel(PixelCoord::new(1, 2), true);
    assert_eq!(canvas.debug_render(), "\u{2580}\u{2580}\u{2580}\n \u{2580}\n\n");
}

#[test]
fn the_exact_rendering_knows_four_blocks() {
    let mut canvas = Canvas::new(9);
    canvas.set_pixel(PixelCoord::new(0, 0), true);
    canvas.set_pixel(PixelCoord::new(1, 1), true);
    canvas.set_pixel(PixelCoord::new(2, 0), true);
    canvas.set_pixel(PixelCoord::new(2, 1), true);
    canvas.set_pixel(PixelCoord::new(4, 1), true);
    assert_eq!(canvas.debug_render(), "\u{2580}\u{2584}\u{2588} \u{2584}\n\n\n");
}

#[test]
fn the_exact_rendering_shows_text_in_the_middle_of_its_cell() {
    let mut canvas = Canvas::new(0);
    canvas.set_character(CharCoord::new(0, 0), 'x');
    assert_eq!(canvas.debug_render(), "\n x\n\n");
    let mut canvas = Canvas::new(3);
    canvas.draw_string(PixelCoord::new(0, 0), "ab\ncd");
    // Two rows: pixel rows 2 and 3 on the second line, 6 and 7 on the fourth.
    assert_eq!(canvas.debug_render(), "\n a  b\n\n c  d\n\n\n");
}

#[test]
fn the_exact_rendering_shows_text_among_pixels() {
    let mut canvas = Canvas::new(3);
    canvas.draw_rect(PixelCoord::new(0, 0), PixelCoord::new(5, 4));
    canvas.set_character(CharCoord::new(1, 0), 'x');
    assert_eq!(
        canvas.debug_render(),
        "\u{2588}\u{2580}\u{2580}\n\u{2588}   x\n\u{2580}\u{2580}\u{2580}\n"
    );
}

#[test]
fn the_exact_rendering_of_an_empty_canvas_is_one_empty_line() {
    assert_eq!(Canvas::new(9).debug_render(), "\n");
}

#[test]
fn the_exact_rendering_has_two_lines_per_row_and_one_more_per_two_rows() {
    let expected = [1, 3, 6, 8, 11, 13, 16];
    for rows in 0..7u64 {
        let mut canvas = Canvas::new(9);
        if rows > 0 {
            canvas.set_character(CharCoord::new(0, rows - 1), 'x');
        }
        let text = canvas.debug_render();
        assert!(text.ends_with('\n'));
        assert_eq!(text.matches('\n').count(), expected[rows as usize]);
        assert_eq!(
            text.matches('\n').count() as u64,
            2 * rows + (rows + 1).div_ceil(2),
            "{rows} rows"
        );
    }
}

#[test]
fn the_exact_rendering_trims_each_line() {
    let mut canvas = Canvas::new(30);
    canvas.set_pixel(PixelCoord::new(1, 0), true);
    canvas.set_character(CharCoord::new(3, 0), ' ');
    let text = canvas.debug_render();
    assert_eq!(text, " \u{2580}\n\n\n");
}

#[test]
fn the_exact_rendering_has_no_footnotes_and_takes_no_table() {
    let mut canvas = Canvas::new(3);
    canvas.draw_line(PixelCoord::new(0, 0), PixelCoord::new(4, 4));
    assert_eq!(
        canvas.debug_render(),
        "\u{2580}\u{2584}\n  \u{2580}\u{2584}\n    \u{2580}\n"
    );
}
