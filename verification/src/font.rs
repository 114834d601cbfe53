//! The glyph table: for every possible pixel block, the character that looks
//! most like it.

use vstd::prelude::*;
use vstd::string::StrSliceExecFns;
use crate::bitmap::lemma_block_of_its_bits;
use crate::bitmap::BitmapChar;
use crate::bitmap::PATTERN_COUNT;
use crate::metric::distance;
use crate::metric::lemma_distance_bound;
use crate::metric::lemma_less_by_millionths;
use crate::metric::Distance;

verus! {

/// Scans the first `count` reference glyphs from left to right and returns
/// the index of the one closest to `target`, or -1 if there is none. A later
/// glyph replaces an earlier one only if it is strictly closer.
pub open spec fn closest_index(
    charset: Seq<(char, BitmapChar)>,
    target: BitmapChar,
    count: int,
) -> int
    decreases count,
{
    if count <= 0 {
        -1
    } else {
        let before = closest_index(charset, target, count - 1);
        if before < 0 || distance(target, charset[count - 1].1).less(
            distance(target, charset[before].1),
        ) {
            count - 1
        } else {
            before
        }
    }
}

/// The character of the reference glyph closest to `target`; `'?'` if the
/// reference set is empty.
pub open spec fn closest_char(charset: Seq<(char, BitmapChar)>, target: BitmapChar) -> char {
    let index = closest_index(charset, target, charset.len() as int);
    if index < 0 {
        '?'
    } else {
        charset[index].0
    }
}

/// The table that `generate` builds from a reference set: entry `i` is the
/// character closest to the block whose packed pixels are `i`.
pub open spec fn glyph_table(charset: Seq<(char, BitmapChar)>) -> Seq<char> {
    Seq::new(PATTERN_COUNT as nat, |i: int| closest_char(charset, BitmapChar::with_bits(i as u16)))
}

/// What a table looks like when written out: its characters in index order.
pub open spec fn serialized(table: Seq<char>) -> Seq<char> {
    table
}

/// The table that a text holds, if it has exactly one character per block.
pub open spec fn deserialized(text: Seq<char>) -> Option<Seq<char>> {
    if text.len() == PATTERN_COUNT {
        Some(text)
    } else {
        None
    }
}

/// The character that `table` gives for `pixels`.
pub open spec fn looked_up(table: Seq<char>, pixels: BitmapChar) -> char {
    table[pixels@ as int]
}

/// Whether progress is reported after the block with the given index.
pub open spec fn reports_progress(index: int) -> bool {
    index % 100 == 0
}

/// The scan finds the reference glyph that is closest to the target, and the
/// first of them where several are equally close: no glyph is closer than the
/// one it finds, and every glyph before that one is farther away.
pub proof fn lemma_closest_is_first_minimum(
    charset: Seq<(char, BitmapChar)>,
    target: BitmapChar,
    count: int,
)
    requires
        0 < count <= charset.len(),
    ensures
        0 <= closest_index(charset, target, count) < count,
        forall|j: int|
            0 <= j < count ==> !distance(target, (#[trigger] charset[j]).1).less(
                distance(target, charset[closest_index(charset, target, count)].1),
            ),
        forall|j: int|
            0 <= j < closest_index(charset, target, count) ==> distance(
                target,
                charset[closest_index(charset, target, count)].1,
            ).less(distance(target, (#[trigger] charset[j]).1)),
    decreases count,
{
    let found = closest_index(charset, target, count);
    let newest = distance(target, charset[count - 1].1);
    lemma_distance_bound(target, charset[count - 1].1);
    lemma_less_by_millionths(newest, newest);
    if count > 1 {
        lemma_closest_is_first_minimum(charset, target, count - 1);
        let before = closest_index(charset, target, count - 1);
        let best = distance(target, charset[before].1);
        lemma_distance_bound(target, charset[before].1);
        lemma_less_by_millionths(newest, best);
        lemma_less_by_millionths(best, newest);
        assert forall|j: int| 0 <= j < count implies !distance(
            target,
            (#[trigger] charset[j]).1,
        ).less(distance(target, charset[found].1)) by {
            let other = distance(target, charset[j].1);
            lemma_distance_bound(target, charset[j].1);
            lemma_less_by_millionths(other, best);
            lemma_less_by_millionths(other, newest);
        }
        assert forall|j: int| 0 <= j < found implies distance(target, charset[found].1).less(
            distance(target, (#[trigger] charset[j]).1),
        ) by {
            let other = distance(target, charset[j].1);
            lemma_distance_bound(target, charset[j].1);
            lemma_less_by_millionths(best, other);
            lemma_less_by_millionths(newest, other);
            lemma_less_by_millionths(other, best);
        }
    } else {
        assert(closest_index(charset, target, 0) == -1);
        assert(found == 0);
    }
}

/// Whether the reference glyph at position `k` is the closest to `target`,
/// and the first of the closest: none is closer, and all before it are
/// farther away.
pub open spec fn is_first_closest(
    charset: Seq<(char, BitmapChar)>,
    target: BitmapChar,
    k: int,
) -> bool {
    &&& 0 <= k < charset.len()
    &&& forall|j: int|
        0 <= j < charset.len() ==> !distance(target, (#[trigger] charset[j]).1).less(
            distance(target, charset[k].1),
        )
    &&& forall|j: int|
        0 <= j < k ==> distance(target, charset[k].1).less(
            distance(target, (#[trigger] charset[j]).1),
        )
}

/// The character that a table generated from a reference set gives for a
/// block is the character of the first of the closest reference glyphs, and
/// `'?'` if there is no reference glyph.
pub proof fn lemma_generated_entry(charset: Seq<(char, BitmapChar)>, pixels: BitmapChar)
    requires
        pixels.well_formed(),
    ensures
        charset.len() == 0 ==> looked_up(glyph_table(charset), pixels) == '?',
        charset.len() > 0 ==> exists|k: int|
            #[trigger] is_first_closest(charset, pixels, k) && looked_up(
                glyph_table(charset),
                pixels,
            ) == charset[k].0,
{
    lemma_block_of_its_bits(pixels);
    if charset.len() > 0 {
        lemma_closest_is_first_minimum(charset, pixels, charset.len() as int);
        assert(is_first_closest(
            charset,
            pixels,
            closest_index(charset, pixels, charset.len() as int),
        ));
    }
}

/// A generated table that is written out and read back is the same table,
/// and so gives the same character for every block.
pub proof fn lemma_serialize_round_trip(charset: Seq<(char, BitmapChar)>, pixels: BitmapChar)
    ensures
        deserialized(serialized(glyph_table(charset))) == Some(glyph_table(charset)),
        looked_up(deserialized(serialized(glyph_table(charset)))->0, pixels) == looked_up(
            glyph_table(charset),
            pixels,
        ),
{
}

/// Generating is a function of the reference set alone: the same reference
/// glyphs in the same order give the same table.
pub proof fn lemma_generate_is_deterministic(
    first: Seq<(char, BitmapChar)>,
    second: Seq<(char, BitmapChar)>,
)
    requires
        first.len() == second.len(),
        forall|i: int| 0 <= i < first.len() ==> first[i] == second[i],
    ensures
        glyph_table(first) == glyph_table(second),
{
    assert(first =~= second);
}

/// Why a text could not be loaded as a glyph table.
#[derive(Clone, Copy, Debug, PartialEq, Eq, Structural)]
pub enum FontError {
    /// The text does not hold exactly 32768 characters.
    LengthMismatch { found: usize },
}

/// A 3x5 pixel to character lookup table for box drawing.
pub struct BitmapFont {
    data: Vec<char>,
}

impl View for BitmapFont {
    type V = Seq<char>;

    /// The table's characters, indexed by packed pixels.
    closed spec fn view(&self) -> Seq<char> {
        self.data@
    }
}

/// Finds the reference glyph closest to `target`.
fn closest(charset: &[(char, BitmapChar)], target: BitmapChar) -> (best: char)
    ensures
        best == closest_char(charset@, target),
{
    let mut best_char = '?';
    let mut best_sim = Distance { units: 0, diagonals: 0 };
    let ghost mut best_index: int = -1;
    let mut i: usize = 0;
    while i < charset.len()
        invariant
            0 <= i <= charset.len(),
            best_index == closest_index(charset@, target, i as int),
            -1 <= best_index < i,
            best_index >= 0 ==> best_char == charset@[best_index].0 && best_sim@ == distance(
                target,
                charset@[best_index].1,
            ),
            best_index < 0 ==> best_char == '?',
        decreases charset.len() - i,
    {
        let entry = charset[i];
        let sim = target.similarity(entry.1);
        if i == 0 || sim.less_than(&best_sim) {
            best_sim = sim;
            best_char = entry.0;
            proof {
                best_index = i as int;
            }
        }
        i = i + 1;
    }
    best_char
}

impl BitmapFont {
    /// Every one of the 32768 blocks has its character.
    #[verifier::type_invariant]
    pub closed spec fn complete(self) -> bool {
        self.data.len() == PATTERN_COUNT
    }

    /// What `complete` says of the table as a value.
    pub proof fn lemma_complete(self)
        requires
            self.complete(),
        ensures
            self@.len() == PATTERN_COUNT,
    {
    }

    /// Generates a font. Each character in the lookup table is selected from
    /// the given character set: the one whose block is closest to the
    /// table entry's block, the earliest of them where several are equally
    /// close. After every hundredth block, starting with the first, `progress`
    /// is told the index of that block, out of 32767; it is called with no
    /// other value.
    pub fn generate<F: Fn(u16)>(charset: &[(char, BitmapChar)], progress: F) -> (font: BitmapFont)
        requires
            forall|index: u16|
                index < PATTERN_COUNT && reports_progress(index as int) ==> call_requires(
                    progress,
                    (index,),
                ),
        ensures
            font@ == glyph_table(charset@),
            font@.len() == PATTERN_COUNT,
    {
        let mut data: Vec<char> = Vec::new();
        let mut index: u16 = 0;
        while index < 0x8000
            invariant
                0 <= index <= 0x8000,
                data@.len() == index,
                forall|i: int| 0 <= i < index ==> data@[i] == glyph_table(charset@)[i],
                forall|index: u16|
                    index < PATTERN_COUNT && reports_progress(index as int) ==> call_requires(
                        progress,
                        (index,),
                    ),
            decreases 0x8000 - index,
        {
            let target = BitmapChar::from_index(index);
            let best = closest(charset, target);
            data.push(best);
            if index % 100 == 0 {
                assert(reports_progress(index as int));
                progress(index);
            }
            index = index + 1;
        }
        assert(data@ =~= glyph_table(charset@));
        BitmapFont { data }
    }

    /// Deserializes a font from a text of exactly 32768 characters, one per
    /// block in index order. Any other text is refused.
    pub fn deserialize(data: &str) -> (loaded: Result<BitmapFont, FontError>)
        ensures
            loaded is Ok <==> data@.len() == PATTERN_COUNT,
            loaded matches Ok(font) ==> Some(font@) == deserialized(data@),
            loaded matches Err(e) ==> e == (FontError::LengthMismatch {
                found: data@.len() as usize,
            }),
    {
        let found = data.unicode_len();
        if found != PATTERN_COUNT {
            return Err(FontError::LengthMismatch { found });
        }
        let mut table: Vec<char> = Vec::new();
        for c in it: data.chars()
            invariant
                it.seq() == data@,
                table@ == data@.subrange(0, it.index()),
        {
            table.push(c);
        }
        assert(table@ =~= data@);
        Ok(BitmapFont { data: table })
    }

    /// Serializes a font into a text of 32768 characters, one per block in
    /// index order, with nothing before, between or after them.
    pub fn serialize(&self) -> (text: String)
        ensures
            text@ == serialized(self@),
            text@.len() == PATTERN_COUNT,
    {
        proof {
            use_type_invariant(self);
        }
        let mut text = String::new();
        let mut i: usize = 0;
        while i < self.data.len()
            invariant
                0 <= i <= self.data.len(),
                text@ == self.data@.subrange(0, i as int),
            decreases self.data.len() - i,
        {
            text.push(self.data[i]);
            i = i + 1;
        }
        assert(text@ =~= self.data@);
        text
    }

    /// Translates a 3x5 bitmap to its best character representation.
    pub fn translate(&self, pixels: BitmapChar) -> (c: char)
        ensures
            c == looked_up(self@, pixels),
    {
        proof {
            use_type_invariant(self);
        }
        let index = pixels.bits();
        self.data[index as usize]
    }
}

} // verus!
