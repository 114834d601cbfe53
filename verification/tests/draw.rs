use dot_txt::canvas::{Canvas, CharCoord, Character, PixelCoord};

fn lit(canvas: &Canvas, width: i64, height: i64) -> Vec<(i64, i64)> {
    let mut on = Vec::new();
    for y in -2..height {
        for x in -2..width {
            if canvas.get_pixel(PixelCoord::new(x, y)) {
                on.push((x, y));
            }
        }
    }
    on
}

fn sorted(mut points: Vec<(i64, i64)>) -> Vec<(i64, i64)> {
    points.sort_by_key(|p| (p.1, p.0));
    points
}

fn texts(canvas: &Canvas, width: u64, height: u64) -> Vec<(u64, u64, char)> {
    let mut found = Vec::new();
    for y in 0..height {
        for x in 0..width {
            if let Character::Text(c) = canvas.get_character(CharCoord::new(x, y)) {
                found.push((x, y, c));
            }
        }
    }
    found
}

#[test]
fn a_line_from_a_pixel_to_itself_is_that_pixel() {
    for (x, y) in [(0, 0), (4, 7), (11, 0), (11, 14), (0, 13)] {
        let mut canvas = Canvas::new(9);
        canvas.draw_line(PixelCoord::new(x, y), PixelCoord::new(x, y));
        assert_eq!(lit(&canvas, 40, 40), vec![(x, y)]);
    }
}

#[test]
fn a_line_from_an_unaddressable_pixel_to_itself_is_nothing() {
    let mut canvas = Canvas::new(9);
    canvas.draw_line(PixelCoord::new(12, 3), PixelCoord::new(12, 3));
    canvas.draw_line(PixelCoord::new(-1, 3), PixelCoord::new(-1, 3));
    assert_eq!(lit(&canvas, 40, 40), vec![]);
    assert_eq!(canvas.cell_count(), 0);
}

#[test]
fn a_line_on_a_text_cell_is_nothing() {
    let mut canvas = Canvas::new(9);
    canvas.set_character(CharCoord::new(1, 1), 'x');
    canvas.draw_line(PixelCoord::new(4, 7), PixelCoord::new(4, 7));
    assert_eq!(lit(&canvas, 40, 40), vec![]);
    assert_eq!(texts(&canvas, 10, 10), vec![(1, 1, 'x')]);
}

#[test]
fn a_line_takes_the_pixels_of_the_walker() {
    let mut canvas = Canvas::new(30);
    canvas.draw_line(PixelCoord::new(0, 0), PixelCoord::new(5, 6));
    assert_eq!(
        lit(&canvas, 40, 40),
        vec![(0, 0), (0, 1), (1, 2), (2, 3), (3, 4), (4, 5), (5, 6)]
    );
}

#[test]
fn a_line_holds_both_ends() {
    let ends = [((0, 0), (5, 5)), ((7, 2), (1, 9)), ((9, 9), (0, 3)), ((2, 8), (10, 1)), ((3, 3), (3, 12))];
    for (a, b) in ends {
        let mut canvas = Canvas::new(30);
        canvas.draw_line(PixelCoord::new(a.0, a.1), PixelCoord::new(b.0, b.1));
        let on = lit(&canvas, 40, 40);
        assert!(on.contains(&a));
        assert!(on.contains(&b));
        let span = std::cmp::max((a.0 - b.0).abs(), (a.1 - b.1).abs());
        assert_eq!(on.len() as i64, span + 1);
        for (x, y) in on {
            assert!(std::cmp::min(a.0, b.0) <= x && x <= std::cmp::max(a.0, b.0));
            assert!(std::cmp::min(a.1, b.1) <= y && y <= std::cmp::max(a.1, b.1));
        }
    }
}

#[test]
fn every_short_line_holds_both_ends_and_one_pixel_per_step() {
    for ax in 0..7 {
        for ay in 0..7 {
            for bx in 0..7 {
                for by in 0..7 {
                    let mut canvas = Canvas::new(30);
                    canvas.draw_line(PixelCoord::new(ax, ay), PixelCoord::new(bx, by));
                    let on = lit(&canvas, 9, 9);
                    assert!(on.contains(&(ax, ay)));
                    assert!(on.contains(&(bx, by)));
                    let span = std::cmp::max((ax - bx).abs(), (ay - by).abs());
                    assert_eq!(on.len() as i64, span + 1);
                    for (x, y) in on {
                        assert!(std::cmp::min(ax, bx) <= x && x <= std::cmp::max(ax, bx));
                        assert!(std::cmp::min(ay, by) <= y && y <= std::cmp::max(ay, by));
                    }
                }
            }
        }
    }
}

#[test]
fn lines_far_from_the_canvas_are_walked_without_harm() {
    let mut canvas = Canvas::new(30);
    let far = (1i64 << 62) - 1;
    canvas.draw_line(PixelCoord::new(far, far), PixelCoord::new(far - 5, far - 3));
    canvas.draw_line(PixelCoord::new(-far, -far), PixelCoord::new(-far + 5, -far + 3));
    canvas.draw_line(PixelCoord::new(-far, 2), PixelCoord::new(-far + 9, 2));
    assert_eq!(canvas.cell_count(), 0);
}

#[test]
fn straight_lines_are_straight() {
    let mut canvas = Canvas::new(30);
    canvas.draw_line(PixelCoord::new(2, 3), PixelCoord::new(6, 3));
    assert_eq!(lit(&canvas, 40, 40), vec![(2, 3), (3, 3), (4, 3), (5, 3), (6, 3)]);
    let mut canvas = Canvas::new(30);
    canvas.draw_line(PixelCoord::new(6, 4), PixelCoord::new(6, 1));
    assert_eq!(lit(&canvas, 40, 40), vec![(6, 1), (6, 2), (6, 3), (6, 4)]);
    let mut canvas = Canvas::new(30);
    canvas.draw_line(PixelCoord::new(0, 0), PixelCoord::new(5, 5));
    assert_eq!(lit(&canvas, 40, 40), vec![(0, 0), (1, 1), (2, 2), (3, 3), (4, 4), (5, 5)]);
}

#[test]
fn a_line_that_leaves_the_canvas_is_cut() {
    let mut canvas = Canvas::new(3);
    canvas.draw_line(PixelCoord::new(-3, 2), PixelCoord::new(9, 2));
    assert_eq!(lit(&canvas, 40, 40), vec![(0, 2), (1, 2), (2, 2), (3, 2), (4, 2), (5, 2)]);
    assert_eq!(canvas.cell_count(), 2);
}

#[test]
fn a_rectangle_is_its_four_border_lines() {
    let mut canvas = Canvas::new(9);
    assert_eq!(canvas.width(), 4);
    canvas.draw_rect(PixelCoord::new(0, 0), PixelCoord::new(9, 9));
    let mut expected = Vec::new();
    for i in 0..=9 {
        expected.push((i, 0));
        expected.push((i, 9));
        expected.push((0, i));
        expected.push((9, i));
    }
    expected.sort_by_key(|p| (p.1, p.0));
    expected.dedup();
    assert_eq!(expected.len(), 36);
    assert_eq!(lit(&canvas, 40, 40), expected);
    assert_eq!(canvas.cell_count(), 8);
}

#[test]
fn a_rectangle_of_one_pixel_is_that_pixel() {
    let mut canvas = Canvas::new(9);
    canvas.draw_rect(PixelCoord::new(4, 7), PixelCoord::new(4, 7));
    assert_eq!(lit(&canvas, 40, 40), vec![(4, 7)]);
}

#[test]
fn a_rectangle_with_both_spans_reversed_is_nothing() {
    let mut canvas = Canvas::new(9);
    canvas.draw_rect(PixelCoord::new(9, 9), PixelCoord::new(0, 0));
    assert_eq!(lit(&canvas, 40, 40), vec![]);
    assert_eq!(canvas.cell_count(), 0);
}

#[test]
fn a_rectangle_with_one_span_reversed_keeps_the_other_lines() {
    let mut canvas = Canvas::new(9);
    canvas.draw_rect(PixelCoord::new(6, 1), PixelCoord::new(2, 3));
    assert_eq!(
        lit(&canvas, 40, 40),
        sorted(vec![(6, 1), (6, 2), (6, 3), (2, 1), (2, 2), (2, 3)])
    );
    let mut canvas = Canvas::new(9);
    canvas.draw_rect(PixelCoord::new(2, 3), PixelCoord::new(6, 1));
    assert_eq!(
        lit(&canvas, 40, 40),
        sorted(vec![(2, 3), (3, 3), (4, 3), (5, 3), (6, 3), (2, 1), (3, 1), (4, 1), (5, 1), (6, 1)])
    );
}

#[test]
fn a_rectangle_that_leaves_the_canvas_is_cut() {
    let mut canvas = Canvas::new(3);
    canvas.draw_rect(PixelCoord::new(-2, -2), PixelCoord::new(20, 3));
    let mut expected = Vec::new();
    for x in 0..6 {
        expected.push((x, 3));
    }
    assert_eq!(lit(&canvas, 40, 40), expected);
}

#[test]
fn a_string_takes_one_cell_per_character() {
    let mut canvas = Canvas::new(30);
    canvas.draw_string(PixelCoord::new(0, 0), "hello");
    assert_eq!(
        texts(&canvas, 12, 5),
        vec![(0, 0, 'h'), (1, 0, 'e'), (2, 0, 'l'), (3, 0, 'l'), (4, 0, 'o')]
    );
    assert_eq!(canvas.cell_count(), 5);
}

#[test]
fn a_line_feed_starts_the_next_row_at_the_first_column() {
    let mut canvas = Canvas::new(30);
    canvas.draw_string(PixelCoord::new(0, 0), "a\nb");
    assert_eq!(texts(&canvas, 12, 5), vec![(0, 0, 'a'), (0, 1, 'b')]);
    let mut canvas = Canvas::new(30);
    canvas.draw_string(PixelCoord::new(7, 6), "ab\ncd\n\ne");
    assert_eq!(
        texts(&canvas, 12, 8),
        vec![(2, 1, 'a'), (3, 1, 'b'), (2, 2, 'c'), (3, 2, 'd'), (2, 4, 'e')]
    );
}

#[test]
fn a_string_starts_at_the_cell_of_its_pixel() {
    for (x, y) in [(3, 5), (4, 7), (5, 9)] {
        let mut canvas = Canvas::new(30);
        canvas.draw_string(PixelCoord::new(x, y), "a");
        assert_eq!(texts(&canvas, 12, 5), vec![(1, 1, 'a')]);
    }
}

#[test]
fn control_characters_take_no_cell() {
    let mut canvas = Canvas::new(30);
    canvas.draw_string(PixelCoord::new(0, 0), "a\u{7}b");
    assert_eq!(texts(&canvas, 12, 5), vec![(0, 0, 'a'), (1, 0, 'b')]);
    let mut canvas = Canvas::new(30);
    canvas.draw_string(PixelCoord::new(0, 0), "\u{0}a\tb\rc\u{1f}d\u{7f}e\u{80}f\u{9f}g");
    assert_eq!(
        texts(&canvas, 12, 5),
        vec![(0, 0, 'a'), (1, 0, 'b'), (2, 0, 'c'), (3, 0, 'd'), (4, 0, 'e'), (5, 0, 'f'), (6, 0, 'g')]
    );
}

#[test]
fn characters_next_to_the_control_characters_take_a_cell() {
    let mut canvas = Canvas::new(30);
    canvas.draw_string(PixelCoord::new(0, 0), " ~\u{a0}\u{2588}");
    assert_eq!(
        texts(&canvas, 12, 5),
        vec![(0, 0, ' '), (1, 0, '~'), (2, 0, '\u{a0}'), (3, 0, '\u{2588}')]
    );
}

#[test]
fn a_string_from_a_negative_pixel_is_not_written() {
    let mut canvas = Canvas::new(30);
    canvas.draw_string(PixelCoord::new(-1, 0), "abc");
    canvas.draw_string(PixelCoord::new(0, -1), "abc\ndef");
    assert_eq!(texts(&canvas, 12, 5), vec![]);
    assert_eq!(canvas.cell_count(), 0);
}

#[test]
fn a_string_is_cut_at_the_width_and_does_not_wrap() {
    let mut canvas = Canvas::new(9);
    canvas.draw_string(PixelCoord::new(6, 0), "abcdef\ngh");
    assert_eq!(texts(&canvas, 12, 5), vec![(2, 0, 'a'), (3, 0, 'b'), (2, 1, 'g'), (3, 1, 'h')]);
    assert_eq!(canvas.cell_count(), 8);
}

#[test]
fn a_string_replaces_pixels() {
    let mut canvas = Canvas::new(9);
    canvas.draw_rect(PixelCoord::new(0, 0), PixelCoord::new(9, 9));
    canvas.draw_string(PixelCoord::new(0, 0), "ab");
    assert_eq!(texts(&canvas, 12, 5), vec![(0, 0, 'a'), (1, 0, 'b')]);
    let on = lit(&canvas, 40, 40);
    assert!(on.iter().all(|&(x, y)| x >= 6 || y >= 5));
    assert!(on.contains(&(6, 0)));
    assert!(on.contains(&(0, 5)));
}

#[test]
fn an_empty_string_writes_nothing() {
    let mut canvas = Canvas::new(9);
    canvas.draw_string(PixelCoord::new(3, 3), "");
    canvas.draw_string(PixelCoord::new(3, 3), "\n\n\u{7}");
    assert_eq!(canvas.cell_count(), 0);
}
