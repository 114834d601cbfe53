use dot_txt::bitmap::BitmapChar;
use dot_txt::font::{BitmapFont, FontError};
use dot_txt::metric::Distance;
use std::cell::RefCell;

fn bar_and_blank() -> Vec<(char, BitmapChar)> {
    vec![
        (' ', BitmapChar::from_bits(0b000_000_000_000_000)),
        ('|', BitmapChar::from_bits(0b010_010_010_010_010)),
    ]
}

fn box_glyphs() -> Vec<(char, BitmapChar)> {
    vec![
        (' ', BitmapChar::from_bits(0b000_000_000_000_000)),
        ('_', BitmapChar::from_bits(0b000_000_000_000_111)),
        ('-', BitmapChar::from_bits(0b000_000_111_000_000)),
        ('`', BitmapChar::from_bits(0b111_000_000_000_000)),
        ('|', BitmapChar::from_bits(0b001_001_001_001_001)),
        ('|', BitmapChar::from_bits(0b010_010_010_010_010)),
        ('|', BitmapChar::from_bits(0b100_100_100_100_100)),
        ('+', BitmapChar::from_bits(0b010_010_111_010_010)),
        ('#', BitmapChar::from_bits(0b101_111_101_111_101)),
    ]
}

#[test]
fn a_reference_glyph_looks_up_to_its_own_character() {
    let charset = bar_and_blank();
    let font = BitmapFont::generate(&charset, |_| {});
    let bar = BitmapChar::from_bits(0b010_010_010_010_010);
    assert_eq!(font.translate(bar), '|');
    assert_eq!(bar.similarity(charset[1].1), Distance { units: 0, diagonals: 0 });
    assert_eq!(font.translate(BitmapChar::from_bits(0)), ' ');
    assert_eq!(font.translate(BitmapChar::default()), ' ');
}

#[test]
fn every_reference_glyph_of_a_larger_set_looks_up_to_its_character() {
    let charset = box_glyphs();
    let font = BitmapFont::generate(&charset, |_| {});
    for (c, block) in charset.iter() {
        assert_eq!(font.translate(*block), *c);
    }
}

#[test]
fn the_closest_glyph_wins() {
    let font = BitmapFont::generate(&bar_and_blank(), |_| {});
    // One pixel: two units from the blank, eight and more from the bar.
    assert_eq!(font.translate(BitmapChar::from_bits(0b000_000_000_000_001)), ' ');
    // The bar with one pixel missing: two units from the bar, eight from the blank.
    assert_eq!(font.translate(BitmapChar::from_bits(0b010_010_000_010_010)), '|');
    // The left bar: ten units from the middle bar, ten from the blank; the
    // blank comes first.
    assert_eq!(font.translate(BitmapChar::from_bits(0b100_100_100_100_100)), ' ');
}

#[test]
fn the_first_of_equally_close_glyphs_wins() {
    let block = BitmapChar::from_bits(0b010_010_111_010_010);
    let font = BitmapFont::generate(&[('a', block), ('b', block)], |_| {});
    for bits in [0u16, 1, 0b010_010_111_010_010, 0x7FFF] {
        assert_eq!(font.translate(BitmapChar::from_bits(bits)), 'a');
    }
    let font = BitmapFont::generate(&[('b', block), ('a', block)], |_| {});
    assert_eq!(font.translate(block), 'b');
    // The middle bar is ten units from the left bar and ten from the right one.
    let left = BitmapChar::from_bits(0b100_100_100_100_100);
    let right = BitmapChar::from_bits(0b001_001_001_001_001);
    let middle = BitmapChar::from_bits(0b010_010_010_010_010);
    let font = BitmapFont::generate(&[('l', left), ('r', right)], |_| {});
    assert_eq!(font.translate(middle), 'l');
    let font = BitmapFont::generate(&[('r', right), ('l', left)], |_| {});
    assert_eq!(font.translate(middle), 'r');
}

#[test]
fn an_empty_reference_set_gives_question_marks() {
    let font = BitmapFont::generate(&[], |_| {});
    let text = font.serialize();
    assert_eq!(text.chars().count(), 32768);
    assert!(text.chars().all(|c| c == '?'));
}

#[test]
fn serialize_writes_one_character_per_block_in_index_order() {
    let font = BitmapFont::generate(&bar_and_blank(), |_| {});
    let text: Vec<char> = font.serialize().chars().collect();
    assert_eq!(text.len(), 32768);
    for bits in 0..32768u16 {
        let block = BitmapChar::from_bits(bits);
        assert_eq!(text[block.bits() as usize], font.translate(block));
    }
}

#[test]
fn a_written_table_reads_back_the_same() {
    let font = BitmapFont::generate(&box_glyphs(), |_| {});
    let text = font.serialize();
    let loaded = BitmapFont::deserialize(&text).expect("a written table has the right length");
    for bits in 0..32768u16 {
        let block = BitmapChar::from_bits(bits);
        assert_eq!(loaded.translate(block), font.translate(block));
    }
    assert_eq!(loaded.serialize(), text);
}

#[test]
fn generate_gives_the_same_table_for_the_same_set() {
    let first = BitmapFont::generate(&box_glyphs(), |_| {});
    let second = BitmapFont::generate(&box_glyphs(), |_| {});
    assert_eq!(first.serialize(), second.serialize());
    let watched = BitmapFont::generate(&box_glyphs(), |index| assert!(index < 32768));
    assert_eq!(first.serialize(), watched.serialize());
}

#[test]
fn progress_is_reported_after_every_hundredth_block() {
    let seen = RefCell::new(Vec::new());
    BitmapFont::generate(&bar_and_blank(), |index| seen.borrow_mut().push(index));
    let seen = seen.into_inner();
    assert_eq!(seen.len(), 328);
    for (i, index) in seen.iter().enumerate() {
        assert_eq!(*index as usize, i * 100);
    }
    assert_eq!(seen[0], 0);
    assert_eq!(seen[327], 32700);
}

#[test]
fn deserialize_assigns_characters_by_position() {
    let mut text = String::new();
    for i in 0..32768u32 {
        text.push(char::from_u32('a' as u32 + i % 26).unwrap());
    }
    let font = BitmapFont::deserialize(&text).unwrap();
    let mut block = BitmapChar::default();
    assert_eq!(font.translate(block), 'a');
    block.poke(0, 0, true);
    assert_eq!(font.translate(block), 'b');
    block.poke(1, 0, true);
    assert_eq!(font.translate(block), 'd');
    assert_eq!(font.translate(BitmapChar::from_bits(0x7FFF)), (b'a' + (32767 % 26) as u8) as char);
    assert_eq!(font.serialize(), text);
}

#[test]
fn deserialize_refuses_any_other_length() {
    assert_eq!(BitmapFont::deserialize("").err(), Some(FontError::LengthMismatch { found: 0 }));
    assert_eq!(BitmapFont::deserialize("abc").err(), Some(FontError::LengthMismatch { found: 3 }));
    let short = "x".repeat(32767);
    assert_eq!(
        BitmapFont::deserialize(&short).err(),
        Some(FontError::LengthMismatch { found: 32767 })
    );
    let long = "x".repeat(32769);
    assert_eq!(
        BitmapFont::deserialize(&long).err(),
        Some(FontError::LengthMismatch { found: 32769 })
    );
    assert!(BitmapFont::deserialize(&"x".repeat(32768)).is_ok());
}

#[test]
fn deserialize_counts_characters_not_bytes() {
    let wide = "\u{2588}".repeat(32768);
    assert_eq!(wide.len(), 3 * 32768);
    let font = BitmapFont::deserialize(&wide).unwrap();
    assert_eq!(font.translate(BitmapChar::from_bits(0x7FFF)), '\u{2588}');
    assert_eq!(font.serialize(), wide);
    // 32768 bytes, but only half as many characters.
    let bytes = "\u{e9}".repeat(16384);
    assert_eq!(bytes.len(), 32768);
    assert_eq!(
        BitmapFont::deserialize(&bytes).err(),
        Some(FontError::LengthMismatch { found: 16384 })
    );
}
