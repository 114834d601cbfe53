//! The 3x5 pixel block that stands at one character position.

use vstd::prelude::*;

verus! {

/// Number of distinct pixel blocks: every combination of 15 pixels.
pub const PATTERN_COUNT: usize = 32768;

/// Whether bit `i` of `bits` is set; bit 0 is the least significant one.
pub open spec fn has_bit(bits: u16, i: int) -> bool {
    0 <= i < 16 && bits & (1u16 << (i as u16)) != 0
}

/// `bits` with bit `i` forced to `value`.
pub open spec fn with_bit(bits: u16, i: int, value: bool) -> u16 {
    if value {
        bits | (1u16 << (i as u16))
    } else {
        bits & !(1u16 << (i as u16))
    }
}

/// The bit that holds pixel `(x, y)`: pixels are packed left to right, top to
/// bottom, starting at the least significant bit.
pub open spec fn pixel_bit(x: int, y: int) -> int {
    x + 3 * y
}

/// Whether `(x, y)` names one of the 15 pixels of a cell.
pub open spec fn in_cell(x: int, y: int) -> bool {
    0 <= x < 3 && 0 <= y < 5
}

/// A 3x5 monochrome pixel block. Pixel `(0, 0)` is the top left one and
/// `(2, 4)` the bottom right one.
#[derive(Clone, Copy, Debug, PartialEq, Eq, Structural)]
pub struct BitmapChar(u16);

impl View for BitmapChar {
    type V = u16;

    /// The packed pixels: pixel `(x, y)` is bit `x + 3 * y`.
    closed spec fn view(&self) -> u16 {
        self.0
    }
}

impl BitmapChar {
    /// Only the low 15 bits carry pixels; the top bit is always clear.
    #[verifier::type_invariant]
    pub closed spec fn well_formed(self) -> bool {
        self.0 < 0x8000
    }

    /// The state of pixel `(x, y)`; every pixel outside the block is off.
    pub open spec fn pixel(self, x: int, y: int) -> bool {
        in_cell(x, y) && has_bit(self@, pixel_bit(x, y))
    }

    /// The block whose packed pixels are `bits`.
    pub closed spec fn with_bits(bits: u16) -> BitmapChar {
        BitmapChar(bits)
    }

    /// The block with pixel `(x, y)` forced to `value`; the block itself if
    /// `(x, y)` is outside of it.
    pub open spec fn poked(self, x: int, y: int, value: bool) -> BitmapChar {
        if in_cell(x, y) {
            BitmapChar::with_bits(with_bit(self@, pixel_bit(x, y), value))
        } else {
            self
        }
    }

    /// The block whose packed pixels are `bits`.
    pub(crate) fn from_index(bits: u16) -> (cell: BitmapChar)
        requires
            bits < 0x8000,
        ensures
            cell == BitmapChar::with_bits(bits),
            cell@ == bits,
    {
        BitmapChar(bits)
    }

    /// The packed pixels, which double as the block's index in a glyph table.
    pub fn bits(&self) -> (bits: u16)
        ensures
            bits == self@,
            bits < 0x8000,
    {
        proof {
            use_type_invariant(self);
        }
        self.0
    }

    /// Read the pixel at the given coordinate. Coordinates outside the block
    /// read as off.
    pub fn peek(&self, x: i8, y: i8) -> (on: bool)
        ensures
            on == self.pixel(x as int, y as int),
            !in_cell(x as int, y as int) ==> !on,
    {
        if x >= 0 && y >= 0 && x < 3 && y < 5 {
            let shift: u16 = (x + y * 3) as u16;
            (self.0 & (1u16 << shift)) != 0
        } else {
            false
        }
    }

    /// Set or clear the pixel at the given coordinate. Coordinates outside
    /// the block are ignored.
    pub fn poke(&mut self, x: i8, y: i8, value: bool)
        ensures
            *final(self) == old(self).poked(x as int, y as int, value),
            !in_cell(x as int, y as int) ==> *final(self) == *old(self),
            forall|px: int, py: int|
                final(self).pixel(px, py) == (if px == x && py == y && in_cell(px, py) {
                    value
                } else {
                    old(self).pixel(px, py)
                }),
    {
        if x >= 0 && y >= 0 && x < 3 && y < 5 {
            let shift: u16 = (x + y * 3) as u16;
            let mask: u16 = 1u16 << shift;
            let before: u16 = self.0;
            let after: u16 = if value {
                before | mask
            } else {
                before & !mask
            };
            proof {
                use_type_invariant(&*self);
                lemma_poked_pixels(*self, x as int, y as int, value);
            }
            self.0 = after;
        }
    }

    /// Creates a block from 15 bits written the way a person reads the
    /// block: the top row first and, within a row, the left pixel first, so
    /// that the top left pixel is bit 14 and the bottom right pixel is bit 0.
    /// For example, `0b000_000_000_000_111` is the bottom row, an '_'. Bit 15
    /// of `bits` is ignored.
    pub fn from_bits(bits: u16) -> (cell: BitmapChar)
        ensures
            cell@ == reversed_packed(bits),
            forall|i: int| 0 <= i < 15 ==> has_bit(cell@, i) == has_bit(bits, 14 - i),
            forall|x: int, y: int|
                cell.pixel(x, y) == (in_cell(x, y) && has_bit(bits, 14 - pixel_bit(x, y))),
    {
        let mut bits = bits;
        let ghost given = bits;
        bits = bits << 1;
        bits = (bits >> 8) | (bits << 8);
        bits = ((bits >> 4) & 0x0F0F) | ((bits << 4) & 0xF0F0);
        bits = ((bits >> 2) & 0x3333) | ((bits << 2) & 0xCCCC);
        bits = ((bits >> 1) & 0x5555) | ((bits << 1) & 0xAAAA);
        proof {
            lemma_reversal_bound(given);
            assert forall|i: int| 0 <= i < 15 implies has_bit(bits, i) == has_bit(
                given,
                14 - i,
            ) by {
                lemma_reversal_moves_bits(given, i as u16);
            }
        }
        BitmapChar(bits)
    }
}

impl Default for BitmapChar {
    /// The block in which every pixel is off.
    fn default() -> (cell: BitmapChar)
        ensures
            cell@ == 0,
            forall|x: int, y: int| !cell.pixel(x, y),
    {
        proof {
            assert(forall|i: u16| 0u16 & (1u16 << i) == 0) by (bit_vector);
        }
        BitmapChar(0)
    }
}

/// `bits` shifted left by one and then reversed as a 16-bit value: halves
/// swapped, then the nibbles of each half, the bit pairs of each nibble and
/// the bits of each pair.
pub open spec fn reversed_packed(bits: u16) -> u16 {
    let a = bits << 1;
    let b = (a >> 8) | (a << 8);
    let c = ((b >> 4) & 0x0F0F) | ((b << 4) & 0xF0F0);
    let d = ((c >> 2) & 0x3333) | ((c << 2) & 0xCCCC);
    ((d >> 1) & 0x5555) | ((d << 1) & 0xAAAA)
}

proof fn lemma_reversal_bound(bits: u16)
    by (bit_vector)
    ensures
        reversed_packed(bits) < 0x8000,
{
}

proof fn lemma_reversal_moves_bits(bits: u16, i: u16)
    by (bit_vector)
    requires
        i < 15,
    ensures
        (reversed_packed(bits) & (1u16 << i) != 0) == (bits & (1u16 << ((14 - i) as u16)) != 0),
{
}

proof fn lemma_with_bit_bound(bits: u16, i: u16)
    by (bit_vector)
    requires
        bits < 0x8000,
        i < 15,
    ensures
        (bits | (1u16 << i)) < 0x8000,
        (bits & !(1u16 << i)) < 0x8000,
{
}

proof fn lemma_with_bit_reads(bits: u16, i: u16, j: u16)
    by (bit_vector)
    requires
        i < 15,
        j < 15,
    ensures
        ((bits | (1u16 << i)) & (1u16 << j) != 0) == (i == j || bits & (1u16 << j) != 0),
        ((bits & !(1u16 << i)) & (1u16 << j) != 0) == (i != j && bits & (1u16 << j) != 0),
{
}

/// `with_bits` builds the block with the given packed pixels, which is
/// well formed if the sixteenth bit is clear.
pub proof fn lemma_with_bits(bits: u16)
    ensures
        BitmapChar::with_bits(bits)@ == bits,
        BitmapChar::with_bits(bits).well_formed() <==> bits < 0x8000,
{
}

/// A block is the block of its packed pixels.
pub proof fn lemma_block_of_its_bits(cell: BitmapChar)
    ensures
        cell == BitmapChar::with_bits(cell@),
        cell.well_formed() <==> cell@ < 0x8000,
{
}

/// Forcing one pixel changes that pixel and no other, and keeps the block
/// within its 15 bits.
pub proof fn lemma_poked_pixels(cell: BitmapChar, x: int, y: int, value: bool)
    ensures
        cell.well_formed() ==> cell.poked(x, y, value).well_formed(),
        forall|px: int, py: int|
            #[trigger] cell.poked(x, y, value).pixel(px, py) == (if px == x && py == y && in_cell(
                px,
                py,
            ) {
                value
            } else {
                cell.pixel(px, py)
            }),
{
    if in_cell(x, y) {
        let shift = pixel_bit(x, y) as u16;
        if cell.well_formed() {
            lemma_with_bit_bound(cell@, shift);
        }
        assert forall|px: int, py: int|
            #[trigger] cell.poked(x, y, value).pixel(px, py) == (if px == x && py == y && in_cell(
                px,
                py,
            ) {
                value
            } else {
                cell.pixel(px, py)
            }) by {
            if in_cell(px, py) {
                lemma_with_bit_reads(cell@, shift, pixel_bit(px, py) as u16);
            }
        }
    }
}

/// Two blocks that agree on every pixel are the same block.
pub proof fn lemma_pixels_determine_block(a: BitmapChar, b: BitmapChar)
    requires
        a.well_formed(),
        b.well_formed(),
        forall|x: int, y: int| in_cell(x, y) ==> a.pixel(x, y) == b.pixel(x, y),
    ensures
        a == b,
{
    let p = a@;
    let q = b@;
    assert forall|i: int| 0 <= i < 15 implies has_bit(p, i) == has_bit(q, i) by {
        let x = i % 3;
        let y = i / 3;
        assert(in_cell(x, y) && pixel_bit(x, y) == i);
        assert(a.pixel(x, y) == b.pixel(x, y));
    }
    assert(has_bit(p, 0) == has_bit(q, 0));
    assert(has_bit(p, 1) == has_bit(q, 1));
    assert(has_bit(p, 2) == has_bit(q, 2));
    assert(has_bit(p, 3) == has_bit(q, 3));
    assert(has_bit(p, 4) == has_bit(q, 4));
    assert(has_bit(p, 5) == has_bit(q, 5));
    assert(has_bit(p, 6) == has_bit(q, 6));
    assert(has_bit(p, 7) == has_bit(q, 7));
    assert(has_bit(p, 8) == has_bit(q, 8));
    assert(has_bit(p, 9) == has_bit(q, 9));
    assert(has_bit(p, 10) == has_bit(q, 10));
    assert(has_bit(p, 11) == has_bit(q, 11));
    assert(has_bit(p, 12) == has_bit(q, 12));
    assert(has_bit(p, 13) == has_bit(q, 13));
    assert(has_bit(p, 14) == has_bit(q, 14));
    assert(p == q) by (bit_vector)
        requires
            p < 0x8000,
            q < 0x8000,
            (p & (1u16 << 0u16) != 0) == (q & (1u16 << 0u16) != 0),
            (p & (1u16 << 1u16) != 0) == (q & (1u16 << 1u16) != 0),
            (p & (1u16 << 2u16) != 0) == (q & (1u16 << 2u16) != 0),
            (p & (1u16 << 3u16) != 0) == (q & (1u16 << 3u16) != 0),
            (p & (1u16 << 4u16) != 0) == (q & (1u16 << 4u16) != 0),
            (p & (1u16 << 5u16) != 0) == (q & (1u16 << 5u16) != 0),
            (p & (1u16 << 6u16) != 0) == (q & (1u16 << 6u16) != 0),
            (p & (1u16 << 7u16) != 0) == (q & (1u16 << 7u16) != 0),
            (p & (1u16 << 8u16) != 0) == (q & (1u16 << 8u16) != 0),
            (p & (1u16 << 9u16) != 0) == (q & (1u16 << 9u16) != 0),
            (p & (1u16 << 10u16) != 0) == (q & (1u16 << 10u16) != 0),
            (p & (1u16 << 11u16) != 0) == (q & (1u16 << 11u16) != 0),
            (p & (1u16 << 12u16) != 0) == (q & (1u16 << 12u16) != 0),
            (p & (1u16 << 13u16) != 0) == (q & (1u16 << 13u16) != 0),
            (p & (1u16 << 14u16) != 0) == (q & (1u16 << 14u16) != 0),
    ;
}

} // verus!
