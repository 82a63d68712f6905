//! The fixed colour table: half-open bands of escape counts, each with one
//! colour, and a default colour for every count that no band holds.

use vstd::prelude::*;

verus! {

/// An RGB triple with eight bits per channel.
#[derive(Clone, Copy, Debug, PartialEq, Eq, Structural)]
pub struct Colour {
    pub r: u8,
    pub g: u8,
    pub b: u8,
}

/// A half-open band of escape counts, `lo <= count < hi`, drawn in one colour.
pub struct Band {
    pub lo: nat,
    pub hi: nat,
    pub colour: Colour,
}

impl Band {
    /// Whether `count` lies in this band.
    pub open spec fn holds(self, count: nat) -> bool {
        self.lo <= count < self.hi
    }
}

/// The colour of every count that lies in no band.
pub open spec fn default_colour() -> Colour {
    Colour { r: 0, g: 0, b: 50 }
}

/// The bands in the order in which they are tried. Neighbouring bands do not
/// touch: the counts 2, 5, 10, 30, 100, 200 and 400 lie between them, and the
/// table ends below 700.
pub open spec fn bands() -> Seq<Band> {
    seq![
        Band { lo: 0, hi: 2, colour: Colour { r: 0, g: 0, b: 150 } },
        Band { lo: 3, hi: 5, colour: Colour { r: 0, g: 0, b: 200 } },
        Band { lo: 6, hi: 10, colour: Colour { r: 255, g: 255, b: 0 } },
        Band { lo: 11, hi: 30, colour: Colour { r: 0, g: 255, b: 255 } },
        Band { lo: 31, hi: 100, colour: Colour { r: 0, g: 255, b: 0 } },
        Band { lo: 101, hi: 200, colour: Colour { r: 255, g: 255, b: 255 } },
        Band { lo: 201, hi: 400, colour: Colour { r: 255, g: 255, b: 255 } },
        Band { lo: 401, hi: 700, colour: Colour { r: 255, g: 255, b: 255 } },
    ]
}

/// The colour of the first band of `table`, from index `from` on, that holds
/// `count`; the default colour where none does.
pub open spec fn first_match(table: Seq<Band>, count: nat, from: nat) -> Colour
    decreases table.len() - from,
{
    if from >= table.len() {
        default_colour()
    } else if table[from as int].holds(count) {
        table[from as int].colour
    } else {
        first_match(table, count, from + 1)
    }
}

/// The colour in which an escape count is drawn.
pub open spec fn band_colour(count: nat) -> Colour {
    first_match(bands(), count, 0)
}

/// Whether some band of the table holds `count`.
pub open spec fn in_some_band(count: nat) -> bool {
    exists|i: int| 0 <= i < bands().len() && #[trigger] bands()[i].holds(count)
}

/// Maps an escape count to its colour.
pub fn from_val(val: usize) -> (colour: Colour)
    ensures
        colour == band_colour(val as nat),
{
    proof {
        reveal_with_fuel(first_match, 9);
    }
    if val < 2 {
        Colour { r: 0, g: 0, b: 150 }
    } else if 3 <= val && val < 5 {
        Colour { r: 0, g: 0, b: 200 }
    } else if 6 <= val && val < 10 {
        Colour { r: 255, g: 255, b: 0 }
    } else if 11 <= val && val < 30 {
        Colour { r: 0, g: 255, b: 255 }
    } else if 31 <= val && val < 100 {
        Colour { r: 0, g: 255, b: 0 }
    } else if 101 <= val && val < 200 {
        Colour { r: 255, g: 255, b: 255 }
    } else if 201 <= val && val < 400 {
        Colour { r: 255, g: 255, b: 255 }
    } else if 401 <= val && val < 700 {
        Colour { r: 255, g: 255, b: 255 }
    } else {
        Colour { r: 0, g: 0, b: 50 }
    }
}

/// The bands are pairwise disjoint, so the order of the table decides
/// nothing: a count that lies in a band is drawn in that band's colour.
pub proof fn lemma_band_decides_colour(count: nat, i: int)
    requires
        0 <= i < bands().len(),
        bands()[i].holds(count),
    ensures
        band_colour(count) == bands()[i].colour,
{
    reveal_with_fuel(first_match, 9);
}

/// A count is drawn in the default colour exactly when no band holds it.
/// The default colour belongs to no band, so it marks the gaps.
pub proof fn lemma_default_marks_gaps(count: nat)
    ensures
        band_colour(count) == default_colour() <==> !in_some_band(count),
{
    reveal_with_fuel(first_match, 9);
    if in_some_band(count) {
        let i = choose|i: int| 0 <= i < bands().len() && #[trigger] bands()[i].holds(count);
        lemma_band_decides_colour(count, i);
    } else {
        assert(forall|i: int| 0 <= i < bands().len() ==> !(#[trigger] bands()[i].holds(count)));
        assert(!bands()[0].holds(count));
        assert(!bands()[1].holds(count));
        assert(!bands()[2].holds(count));
        assert(!bands()[3].holds(count));
        assert(!bands()[4].holds(count));
        assert(!bands()[5].holds(count));
        assert(!bands()[6].holds(count));
        assert(!bands()[7].holds(count));
    }
}

/// The counts between neighbouring bands, and every count from 700 on, are
/// drawn in the default colour.
pub proof fn lemma_gaps_take_default(count: nat)
    requires
        count == 2 || count == 5 || count == 10 || count == 30 || count == 100 || count == 200
            || count == 400 || count >= 700,
    ensures
        band_colour(count) == default_colour(),
{
    reveal_with_fuel(first_match, 9);
}

} // verus!
