//! How far apart two pixel blocks look.
//!
//! Every set pixel of one block is matched with the nearest set pixel of the
//! other block among the pixel itself and its eight neighbours. The pixel
//! costs 0, 1 or the square root of 2 by the Euclidean distance to that match,
//! and 2 where the other block has no set pixel that close. Costs are kept
//! exact, as a whole number of units plus a whole number of diagonals.

use vstd::prelude::*;
use crate::bitmap::in_cell;
use crate::bitmap::BitmapChar;

verus! {

/// The value `units + diagonals * sqrt(2)`.
pub struct Cost {
    pub units: int,
    pub diagonals: int,
}

impl Cost {
    /// No cost at all.
    pub open spec fn zero() -> Cost {
        Cost { units: 0, diagonals: 0 }
    }

    /// The sum of two costs.
    pub open spec fn plus(self, other: Cost) -> Cost {
        Cost { units: self.units + other.units, diagonals: self.diagonals + other.diagonals }
    }

    /// Whether `self` is strictly smaller than `other` as a real number.
    ///
    /// With `p = other.units - self.units` and `q = self.diagonals -
    /// other.diagonals` this asks whether `q * sqrt(2) < p`, which the signs
    /// and squares of `p` and `q` decide.
    pub open spec fn less(self, other: Cost) -> bool {
        let p = other.units - self.units;
        let q = self.diagonals - other.diagonals;
        if q <= 0 {
            p > 0 || 2 * q * q > p * p
        } else {
            p > 0 && 2 * q * q < p * p
        }
    }

    /// The value in millionths, with 1.414214 for the square root of 2: a
    /// whole number that orders costs of few diagonals as `less` does.
    pub open spec fn millionths(self) -> int {
        1_000_000 * self.units + 1_414_214 * self.diagonals
    }
}

/// Among costs of at most 800 diagonals each, one is less than another
/// exactly if it is less in millionths. So `less` is a strict total order on
/// them: two such costs with the same millionths are the same cost.
pub proof fn lemma_less_by_millionths(a: Cost, b: Cost)
    requires
        0 <= a.diagonals <= 800,
        0 <= b.diagonals <= 800,
    ensures
        a.less(b) <==> a.millionths() < b.millionths(),
        a.millionths() == b.millionths() ==> a == b,
{
    let p = b.units - a.units;
    let q = a.diagonals - b.diagonals;
    assert(a.millionths() < b.millionths() <==> 1_000_000 * p > 1_414_214 * q);
    assert(a.millionths() == b.millionths() <==> 1_000_000 * p == 1_414_214 * q);
    if p >= 0 && q >= 0 {
        lemma_root_two_bounds(p, q);
    } else if p <= 0 && q <= 0 {
        lemma_root_two_bounds(-p, -q);
        assert((-p) * (-p) == p * p && 2 * (-q) * (-q) == 2 * q * q) by (nonlinear_arith);
    }
}

/// For `p` and `q` of one sign, `q` small, `p` exceeds `q` times the square
/// root of 2 exactly if a millionth of `p` exceeds 1.414214 millionths of
/// `q`; the two are never equal unless both are zero.
proof fn lemma_root_two_bounds(p: int, q: int)
    requires
        0 <= p,
        0 <= q <= 800,
    ensures
        p * p > 2 * q * q <==> 1_000_000 * p > 1_414_214 * q,
        p * p < 2 * q * q <==> 1_000_000 * p < 1_414_214 * q,
        1_000_000 * p == 1_414_214 * q ==> p == 0 && q == 0,
{
    let x = 1_000_000 * p;
    let y = 1_414_214 * q;
    assert(x * x == 1_000_000_000_000 * (p * p)) by (nonlinear_arith)
        requires
            x == 1_000_000 * p,
    ;
    assert(y * y == 2_000_001_237_796 * (q * q)) by (nonlinear_arith)
        requires
            y == 1_414_214 * q,
    ;
    assert(0 <= q * q <= 640_000) by (nonlinear_arith)
        requires
            0 <= q <= 800,
    ;
    assert(2 * q * q == 2 * (q * q)) by (nonlinear_arith);
    assert(x > y <==> x * x > y * y) by (nonlinear_arith)
        requires
            0 <= x,
            0 <= y,
    ;
    assert(x < y <==> x * x < y * y) by (nonlinear_arith)
        requires
            0 <= x,
            0 <= y,
    ;
    // y * y lies less than a million millions above a multiple of it.
    let pp = p * p;
    let qq = q * q;
    assert(0 <= 1_237_796 * qq < 1_000_000_000_000);
    if pp > 2 * qq {
        assert(pp >= 2 * qq + 1);
        assert(x * x > y * y);
    }
    if x * x > y * y {
        assert(1_000_000_000_000 * pp > 2_000_000_000_000 * qq);
    }
    if pp < 2 * qq {
        assert(x * x < y * y);
    }
    if x * x < y * y {
        assert(1_000_000_000_000 * pp < 2_000_001_237_796 * qq);
        assert(pp <= 2 * qq);
        if pp == 2 * qq {
            assert(x * x == 2_000_000_000_000 * qq);
            assert(x * x <= y * y);
            lemma_no_square_is_twice_a_square(p, q);
        }
    }
    if x == y {
        assert(x * x == y * y);
        assert(1_000_000_000_000 * pp == 2_000_001_237_796 * qq);
        if q != 0 {
            assert(qq >= 1) by (nonlinear_arith)
                requires
                    q >= 1,
                    qq == q * q,
            ;
            assert(false);
        }
    }
}

/// The square root of 2 is no fraction: a square is twice a square only if
/// both are zero.
proof fn lemma_no_square_is_twice_a_square(p: int, q: int)
    requires
        0 <= p,
        0 <= q,
        p * p == 2 * (q * q),
    ensures
        p == 0 && q == 0,
    decreases p,
{
    if p == 0 {
        assert(q == 0) by (nonlinear_arith)
            requires
                0 <= q,
                p == 0,
                p * p == 2 * (q * q),
        ;
    } else {
        // p is even, so q * q is twice the square of p / 2: descend to (q, p / 2).
        let h = p / 2;
        if p % 2 == 1 {
            assert((2 * h + 1) * (2 * h + 1) == 2 * (2 * (h * h) + 2 * h) + 1) by (nonlinear_arith);
            assert(false);
        }
        assert(p == 2 * h);
        assert(p * p == 4 * (h * h)) by (nonlinear_arith)
            requires
                p == 2 * h,
        ;
        assert(q * q == 2 * (h * h));
        assert(q < p) by (nonlinear_arith)
            requires
                0 <= q,
                0 < p,
                p * p == 2 * (q * q),
        ;
        lemma_no_square_is_twice_a_square(q, h);
        assert(false);
    }
}

/// The cost of one set pixel at `(x, y)`: its distance to the nearest set
/// pixel of `other` among the pixel itself (0), the four pixels beside, above
/// and below it (1) and the four pixels diagonally next to it (the square
/// root of 2), or 2 if none of the nine is set.
pub open spec fn nearest_cost(other: BitmapChar, x: int, y: int) -> Cost {
    if other.pixel(x, y) {
        Cost::zero()
    } else if other.pixel(x - 1, y) || other.pixel(x + 1, y) || other.pixel(x, y - 1)
        || other.pixel(x, y + 1) {
        Cost { units: 1, diagonals: 0 }
    } else if other.pixel(x - 1, y - 1) || other.pixel(x + 1, y - 1) || other.pixel(x - 1, y + 1)
        || other.pixel(x + 1, y + 1) {
        Cost { units: 0, diagonals: 1 }
    } else {
        Cost { units: 2, diagonals: 0 }
    }
}

/// What pixel `(x, y)` of `this` adds to the cost of `this` against `other`.
pub open spec fn pixel_cost(this: BitmapChar, other: BitmapChar, x: int, y: int) -> Cost {
    if this.pixel(x, y) {
        nearest_cost(other, x, y)
    } else {
        Cost::zero()
    }
}

/// The summed cost of the first `count` pixels of `this`, in reading order.
pub open spec fn partial_cost(this: BitmapChar, other: BitmapChar, count: int) -> Cost
    decreases count,
{
    if count <= 0 {
        Cost::zero()
    } else {
        partial_cost(this, other, count - 1).plus(
            pixel_cost(this, other, (count - 1) % 3, (count - 1) / 3),
        )
    }
}

/// The cost of `this` against `other`: the sum over all 15 pixels.
pub open spec fn one_way_cost(this: BitmapChar, other: BitmapChar) -> Cost {
    partial_cost(this, other, 15)
}

/// The symmetric distance between two blocks.
pub open spec fn distance(a: BitmapChar, b: BitmapChar) -> Cost {
    one_way_cost(a, b).plus(one_way_cost(b, a))
}

/// A distance between two blocks, `units + diagonals * sqrt(2)`.
#[derive(Clone, Copy, Debug, PartialEq, Eq, Structural)]
pub struct Distance {
    pub units: u32,
    pub diagonals: u32,
}

impl View for Distance {
    type V = Cost;

    open spec fn view(&self) -> Cost {
        Cost { units: self.units as int, diagonals: self.diagonals as int }
    }
}

impl Distance {
    /// Whether this distance is strictly smaller than `other`.
    pub fn less_than(&self, other: &Distance) -> (smaller: bool)
        ensures
            smaller == self@.less(other@),
    {
        let p: i128 = other.units as i128 - self.units as i128;
        let q: i128 = self.diagonals as i128 - other.diagonals as i128;
        proof {
            lemma_square_bound(p as int);
            lemma_square_bound(q as int);
        }
        let pp: i128 = p * p;
        let qq: i128 = q * q;
        assert(2 * q * q == 2 * (q * q)) by (nonlinear_arith);
        if q <= 0 {
            p > 0 || 2 * qq > pp
        } else {
            p > 0 && 2 * qq < pp
        }
    }
}

proof fn lemma_square_bound(v: int)
    requires
        -0x1_0000_0000 <= v <= 0x1_0000_0000,
    ensures
        0 <= v * v <= 0x1_0000_0000_0000_0000,
{
    assert(0 <= v * v <= 0x1_0000_0000_0000_0000) by (nonlinear_arith)
        requires
            -0x1_0000_0000 <= v <= 0x1_0000_0000,
    ;
}

/// A partial cost never exceeds two units, or one diagonal, per pixel.
pub proof fn lemma_partial_cost_bound(this: BitmapChar, other: BitmapChar, count: int)
    requires
        0 <= count,
    ensures
        0 <= partial_cost(this, other, count).units <= 2 * count,
        0 <= partial_cost(this, other, count).diagonals <= count,
    decreases count,
{
    if count > 0 {
        lemma_partial_cost_bound(this, other, count - 1);
    }
}

/// A distance has at most 60 units and 30 diagonals.
pub proof fn lemma_distance_bound(a: BitmapChar, b: BitmapChar)
    ensures
        0 <= distance(a, b).units <= 60,
        0 <= distance(a, b).diagonals <= 30,
{
    lemma_partial_cost_bound(a, b, 15);
    lemma_partial_cost_bound(b, a, 15);
}

/// The distance does not depend on the order of the two blocks.
pub proof fn lemma_distance_is_symmetric(a: BitmapChar, b: BitmapChar)
    ensures
        distance(a, b) == distance(b, a),
{
}

/// A partial cost is zero exactly if, among the pixels it covers, `other`
/// has every pixel set that `this` has.
proof fn lemma_partial_cost_zero(this: BitmapChar, other: BitmapChar, count: int)
    requires
        0 <= count,
    ensures
        partial_cost(this, other, count) == Cost::zero() <==> (forall|i: int|
            0 <= i < count ==> (#[trigger] this.pixel(i % 3, i / 3) ==> other.pixel(i % 3, i / 3))),
    decreases count,
{
    if count > 0 {
        lemma_partial_cost_zero(this, other, count - 1);
        lemma_partial_cost_bound(this, other, count - 1);
        let last = count - 1;
        let step = pixel_cost(this, other, last % 3, last / 3);
        assert(step == Cost::zero() <==> (this.pixel(last % 3, last / 3) ==> other.pixel(
            last % 3,
            last / 3,
        )));
        if partial_cost(this, other, count) == Cost::zero() {
            assert(partial_cost(this, other, count - 1) == Cost::zero());
            assert(step == Cost::zero());
        }
    }
}

/// The distance between two blocks is zero exactly if they have the same
/// pixels.
pub proof fn lemma_zero_distance(a: BitmapChar, b: BitmapChar)
    ensures
        distance(a, b) == Cost::zero() <==> (forall|x: int, y: int| a.pixel(x, y) == b.pixel(x, y)),
{
    lemma_partial_cost_zero(a, b, 15);
    lemma_partial_cost_zero(b, a, 15);
    lemma_partial_cost_bound(a, b, 15);
    lemma_partial_cost_bound(b, a, 15);
    if distance(a, b) == Cost::zero() {
        assert(one_way_cost(a, b) == Cost::zero());
        assert(one_way_cost(b, a) == Cost::zero());
        assert forall|x: int, y: int| a.pixel(x, y) == b.pixel(x, y) by {
            if in_cell(x, y) {
                let i = x + 3 * y;
                assert(i % 3 == x && i / 3 == y);
                assert(a.pixel(i % 3, i / 3) ==> b.pixel(i % 3, i / 3));
                assert(b.pixel(i % 3, i / 3) ==> a.pixel(i % 3, i / 3));
            }
        }
    }
    if forall|x: int, y: int| a.pixel(x, y) == b.pixel(x, y) {
        assert(one_way_cost(a, b) == Cost::zero());
        assert(one_way_cost(b, a) == Cost::zero());
    }
}

impl BitmapChar {
    /// The cost of the nearest set pixel of `self` around `(x, y)`.
    fn nearest(&self, x: i8, y: i8) -> (cost: Distance)
        requires
            0 <= x < 3,
            0 <= y < 5,
        ensures
            cost@ == nearest_cost(*self, x as int, y as int),
    {
        if self.peek(x, y) {
            Distance { units: 0, diagonals: 0 }
        } else if self.peek(x - 1, y) || self.peek(x + 1, y) || self.peek(x, y - 1) || self.peek(
            x,
            y + 1,
        ) {
            Distance { units: 1, diagonals: 0 }
        } else if self.peek(x - 1, y - 1) || self.peek(x + 1, y - 1) || self.peek(x - 1, y + 1)
            || self.peek(x + 1, y + 1) {
            Distance { units: 0, diagonals: 1 }
        } else {
            Distance { units: 2, diagonals: 0 }
        }
    }

    /// The cost of `self` against `other`: every set pixel of `self` is
    /// charged its distance to the nearest set pixel of `other`.
    pub fn similarity_asym(self, other: BitmapChar) -> (cost: Distance)
        ensures
            cost@ == one_way_cost(self, other),
    {
        let mut sum = Distance { units: 0, diagonals: 0 };
        let mut index: i8 = 0;
        while index < 15
            invariant
                0 <= index <= 15,
                sum@ == partial_cost(self, other, index as int),
            decreases 15 - index,
        {
            let x: i8 = index % 3;
            let y: i8 = index / 3;
            proof {
                lemma_partial_cost_bound(self, other, index as int);
            }
            if self.peek(x, y) {
                let near = other.nearest(x, y);
                sum = Distance {
                    units: sum.units + near.units,
                    diagonals: sum.diagonals + near.diagonals,
                };
            }
            index = index + 1;
        }
        sum
    }

    /// Scores how close two blocks look. Zero means equal; higher values
    /// mean less alike.
    pub fn similarity(self, other: BitmapChar) -> (dist: Distance)
        ensures
            dist@ == distance(self, other),
    {
        let forth = self.similarity_asym(other);
        let back = other.similarity_asym(self);
        proof {
            lemma_partial_cost_bound(self, other, 15);
            lemma_partial_cost_bound(other, self, 15);
        }
        Distance { units: forth.units + back.units, diagonals: forth.diagonals + back.diagonals }
    }
}

} // verus!
